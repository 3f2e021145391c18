use herdr_beads::json::{text_at, truth_at};
use herdr_beads::workspace::{
    apply_working_dir, pane_list, panes_of, repo_candidates, resolve_repo_cwd, Candidate, DirEvent,
    DirQuestion, Pane,
};

fn pane(id: Option<&str>, cwd: Option<&str>, ws: Option<&str>, focused: Option<bool>) -> Pane {
    Pane {
        pane_id: id.map(String::from),
        cwd: cwd.map(String::from),
        workspace_id: ws.map(String::from),
        focused,
    }
}

fn candidate(cwd: &str, has_beads: bool, focused: bool, in_workspace: bool) -> Candidate {
    Candidate { cwd: cwd.to_string(), has_beads, focused, in_workspace }
}

#[test]
fn panes_are_read_from_the_reply() {
    let reply = br#"{"result":{"panes":[
        {"pane_id":"p1","cwd":"/a","workspace_id":"w","focused":true},
        {"pane_id":2,"focused":"yes"},
        "odd"
    ]}}"#;
    let panes = pane_list(true, reply).unwrap();
    assert_eq!(panes.len(), 3);
    assert_eq!(panes[0].pane_id.as_deref(), Some("p1"));
    assert_eq!(panes[0].cwd.as_deref(), Some("/a"));
    assert_eq!(panes[0].workspace_id.as_deref(), Some("w"));
    assert_eq!(panes[0].focused, Some(true));
    assert!(panes[1].pane_id.is_none() && panes[1].focused.is_none());
    assert!(panes[2].cwd.is_none());
}

#[test]
fn other_replies_have_no_panes() {
    assert!(pane_list(false, br#"{"result":{"panes":[]}}"#).is_none());
    assert!(pane_list(true, b"herdr: no server").is_none());
    assert!(pane_list(true, b"\xff").is_none());
    assert!(pane_list(true, br#"{"result":{"panes":{}}}"#).is_none());
    assert!(pane_list(true, br#"{"result":{}}"#).is_none());
    assert!(pane_list(true, b"{}").is_none());
    let doc: serde_json::Value = serde_json::from_str(r#"{"result":{"panes":[]}}"#).unwrap();
    assert!(panes_of(&doc).unwrap().is_empty());
}

#[test]
fn members_have_their_types() {
    let doc: serde_json::Value = serde_json::from_str(r#"{"s":"x","b":false,"n":1}"#).unwrap();
    assert_eq!(text_at(&doc, "s").as_deref(), Some("x"));
    assert!(text_at(&doc, "b").is_none() && text_at(&doc, "missing").is_none());
    assert_eq!(truth_at(&doc, "b"), Some(false));
    assert!(truth_at(&doc, "n").is_none() && truth_at(&doc, "missing").is_none());
}

#[test]
fn candidates_are_the_other_panes_with_a_directory() {
    let panes = vec![
        pane(Some("me"), Some("/mine"), Some("w"), Some(true)),
        pane(Some("x"), None, Some("w"), Some(true)),
        pane(None, Some("/nameless"), None, None),
        pane(Some("y"), Some("/y"), Some("w"), Some(true)),
        pane(Some("z"), Some("/z"), Some("v"), Some(false)),
    ];
    let found = repo_candidates(panes, "me", "w");
    let seen: Vec<(String, bool, bool, bool)> =
        found.into_iter().map(|c| (c.cwd, c.has_beads, c.focused, c.in_workspace)).collect();
    assert_eq!(
        seen,
        [
            ("/nameless".to_string(), false, false, false),
            ("/y".to_string(), false, true, true),
            ("/z".to_string(), false, false, false)
        ]
    );
}

#[test]
fn without_a_name_or_a_workspace_nothing_matches_them() {
    let panes = vec![
        pane(None, Some("/nameless"), Some(""), None),
        pane(Some("x"), Some("/x"), Some(""), None),
    ];
    let found = repo_candidates(panes, "", "");
    assert_eq!(found.len(), 1);
    assert!(found[0].cwd == "/x" && !found[0].in_workspace);
}

#[test]
fn beads_win_then_focus_then_workspace() {
    let pick = |c: &[Candidate]| resolve_repo_cwd(c).unwrap();
    assert_eq!(
        pick(&[candidate("/z", false, true, true), candidate("/a", true, false, false)]),
        "/a"
    );
    assert_eq!(
        pick(&[candidate("/z", true, false, true), candidate("/a", true, true, false)]),
        "/a"
    );
    assert_eq!(
        pick(&[candidate("/a", true, true, true), candidate("/z", true, true, false)]),
        "/a"
    );
    assert_eq!(
        pick(&[
            candidate("/a", false, false, false),
            candidate("/c", false, false, false),
            candidate("/b", false, false, false)
        ]),
        "/c"
    );
    assert!(resolve_repo_cwd(&[]).is_none());
}

#[test]
fn a_separator_ends_the_directory() {
    assert_eq!(resolve_repo_cwd(&[candidate("/a\u{1}b", true, true, true)]).unwrap(), "/a");
    assert_eq!(resolve_repo_cwd(&[candidate("\u{1}", true, true, true)]).unwrap(), "");
}

#[test]
fn the_working_directory_is_found_step_by_step() {
    let step = apply_working_dir(DirEvent::Override(Some("/repo".to_string())));
    assert!(step.change.as_deref() == Some("/repo") && step.next == DirQuestion::LookForBeads);
    let step = apply_working_dir(DirEvent::Override(Some(String::new())));
    assert!(step.change.is_none() && step.next == DirQuestion::LookForBeads);
    let step = apply_working_dir(DirEvent::Override(None));
    assert!(step.change.is_none() && step.next == DirQuestion::LookForBeads);
    let step = apply_working_dir(DirEvent::BeadsHere(true));
    assert!(step.change.is_none() && step.next == DirQuestion::Nothing);
    let step = apply_working_dir(DirEvent::BeadsHere(false));
    assert!(step.change.is_none() && step.next == DirQuestion::AskHerdr);
    let step = apply_working_dir(DirEvent::Repo(Some("/r".to_string())));
    assert!(step.change.as_deref() == Some("/r") && step.next == DirQuestion::Nothing);
    let step = apply_working_dir(DirEvent::Repo(None));
    assert!(step.change.is_none() && step.next == DirQuestion::Nothing);
}
