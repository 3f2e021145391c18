use herdr_beads::bd::{
    add_comment, add_note, answer, bd_places, board, claim, close, create, create_reply,
    failure, first_bead, human_respond, load, load_reply, parse_list, resolve_bd, review_command,
    review_reply, review_words_of, run, run_outcome, set_priority, set_status, show, show_reply,
    update_bead, update_reply, write_reply, Call, Ended,
};
use herdr_beads::bead::{Bead, Dependency, NewBead};
use herdr_beads::error::BdError;
use herdr_beads::model::Scope;
use serde_json::Value;

fn text(v: &Value, key: &str) -> String {
    v.get(key).and_then(|x| x.as_str()).unwrap_or("").to_string()
}

fn bead_from(v: &Value) -> Bead {
    Bead {
        id: text(v, "id"),
        title: text(v, "title"),
        status: text(v, "status"),
        priority: v.get("priority").and_then(|x| x.as_u64()).unwrap_or(0) as u8,
        issue_type: text(v, "issue_type"),
        assignee: v.get("assignee").and_then(|x| x.as_str()).map(String::from),
        labels: v
            .get("labels")
            .and_then(|x| x.as_array())
            .map(|a| a.iter().filter_map(|l| l.as_str()).map(String::from).collect())
            .unwrap_or_default(),
        dependencies: v
            .get("dependencies")
            .and_then(|x| x.as_array())
            .map(|a| a.iter().map(dependency_from).collect())
            .unwrap_or_default(),
    }
}

fn dependency_from(v: &Value) -> Dependency {
    let member = |key: &str| v.get(key).and_then(|x| x.as_str()).map(String::from);
    Dependency { other_id: member("depends_on_id").or(member("id")), title: member("title") }
}

fn decode(doc: &str) -> Result<Vec<Bead>, String> {
    let list: Vec<Value> = serde_json::from_str(doc).map_err(|e| e.to_string())?;
    Ok(list.iter().map(bead_from).collect())
}

fn bead(id: &str, status: &str) -> Bead {
    Bead {
        id: id.to_string(),
        title: String::new(),
        status: status.to_string(),
        priority: 2,
        issue_type: "task".to_string(),
        assignee: None,
        labels: Vec::new(),
        dependencies: Vec::new(),
    }
}

fn form<'a>() -> NewBead<'a> {
    NewBead {
        title: "A title; rm -rf /",
        issue_type: "task",
        priority: 3,
        description: "",
        assignee: "",
        parent: "",
        labels: "",
        deferred: false,
    }
}

fn ids(beads: Vec<Bead>) -> Vec<String> {
    beads.into_iter().map(|b| b.id).collect()
}

fn failed() -> BdError {
    BdError::Failed { args: "list --json".to_string(), stderr: "no database".to_string() }
}

#[test]
fn empty_and_whitespace_parse_to_empty() {
    assert!(parse_list("", decode).unwrap().is_empty());
    assert!(parse_list("   \n  ", decode).unwrap().is_empty());
}

#[test]
fn human_queue_is_open_beads_labelled_human() {
    let s = r#"[
            {"id":"a","status":"open","labels":["human","keyboard"]},
            {"id":"b","status":"closed","labels":["human"]},
            {"id":"c","status":"open","labels":["humane"]},
            {"id":"d","status":"open"}
        ]"#;
    let waiting: Vec<_> = parse_list(s, decode).unwrap().into_iter().filter(|b| b.needs_human()).map(|b| b.id).collect();
    assert_eq!(waiting, ["a"]);
}

#[test]
fn verify_items_are_open_human_beads_labelled_verify() {
    let s = r#"[
            {"id":"v","status":"open","labels":["human","verify"]},
            {"id":"q","status":"open","labels":["human"]},
            {"id":"done","status":"closed","labels":["human","verify"]}
        ]"#;
    let v: Vec<_> = parse_list(s, decode).unwrap().into_iter().filter(|b| b.is_verify()).map(|b| b.id).collect();
    assert_eq!(v, ["v"]);
}

#[test]
fn answers_match_what_review_sh_reads() {
    assert_eq!(answer(true, "ignored"), "pass");
    assert_eq!(answer(false, "  too quiet "), "fail: too quiet");
}

#[test]
fn tolerates_unknown_fields() {
    let s = r#"[{"id":"x-1","title":"t","status":"open","priority":2,"issue_type":"task","surprise_field":123}]"#;
    let beads = parse_list(s, decode).unwrap();
    assert_eq!(beads[0].id, "x-1");
    assert_eq!(beads[0].assignee(), "-");
}

#[test]
fn an_assignee_is_named() {
    let mut b = bead("x", "open");
    b.assignee = Some("ada".to_string());
    assert_eq!(b.assignee(), "ada");
}

#[test]
fn a_reply_that_is_no_list_is_an_error() {
    let e = parse_list(" {not json ", decode).unwrap_err();
    assert_eq!(e.message(), "parsing bd --json output");
    assert!(matches!(e, BdError::List { .. }));
}

#[test]
fn the_decoder_gets_the_trimmed_text() {
    let seen = parse_list(" \n[1]\t", |doc: &str| Err(doc.to_string())).unwrap_err();
    match seen {
        BdError::List { cause } => assert_eq!(cause, "[1]"),
        other => panic!("{:?}", other),
    }
}

#[test]
fn program_is_the_first_that_is_there() {
    assert_eq!(bd_places()[0], "/opt/homebrew/bin/bd");
    assert_eq!(resolve_bd([true, true, true, true]), "/opt/homebrew/bin/bd");
    assert_eq!(resolve_bd([false, true, false, true]), "/usr/local/bin/bd");
    assert_eq!(resolve_bd([false, false, true, false]), "/usr/bin/bd");
    assert_eq!(resolve_bd([false, false, false, true]), "/home/linuxbrew/.linuxbrew/bin/bd");
    assert_eq!(resolve_bd([false; 4]), "bd");
}

#[test]
fn every_request_is_a_vector_of_arguments() {
    let s = Scope::Repo;
    assert_eq!(set_status(s, "x-1", "open").args, ["update", "x-1", "-s", "open"]);
    assert_eq!(claim(s, "x-1").args, ["update", "x-1", "--claim"]);
    assert_eq!(close(s, "x-1", "done; ok").args, ["close", "x-1", "-r", "done; ok"]);
    assert_eq!(set_priority(s, "x-1", 255).args, ["priority", "x-1", "255"]);
    assert_eq!(add_note(s, "x-1", "a b").args, ["note", "x-1", "a b"]);
    assert_eq!(add_comment(s, "x-1", "").args, ["comment", "x-1", ""]);
    assert_eq!(human_respond(s, "x-1", "pass").args, ["human", "respond", "x-1", "-r", "pass"]);
    assert_eq!(show(s, "x-1").args, ["show", "x-1", "--json"]);
    assert_eq!(load(s, false).args, ["list", "--json"]);
    assert_eq!(load(s, true).args, ["list", "--all", "--json"]);
    assert_eq!(
        review_command(s).args,
        ["config", "get", "custom.herdr-beads.review", "--json"]
    );
    assert_eq!(claim(Scope::Global, "x-1").scope, Scope::Global);
}

#[test]
fn a_new_issue_gets_its_title_as_description() {
    let call = create(Scope::Repo, &form());
    assert_eq!(
        call.args,
        [
            "create",
            "A title; rm -rf /",
            "-t",
            "task",
            "-p",
            "3",
            "--description",
            "A title; rm -rf /",
            "--silent"
        ]
    );
}

#[test]
fn a_full_form_fills_every_option() {
    let nb = NewBead { description: "d", assignee: "a", parent: "p", labels: "l,m", ..form() };
    let created = create(Scope::Repo, &nb).args;
    assert_eq!(created[7], "d");
    assert_eq!(created[9..], ["-a", "a", "--parent", "p", "-l", "l,m"]);
    assert_eq!(
        update_bead(Scope::Repo, "x-1", &nb).args,
        [
            "update",
            "x-1",
            "--title",
            "A title; rm -rf /",
            "-t",
            "task",
            "-p",
            "3",
            "--description",
            "d",
            "-a",
            "a",
            "--parent",
            "p",
            "--set-labels",
            "l,m"
        ]
    );
}

#[test]
fn an_update_leaves_empty_fields_out() {
    let nb = NewBead { parent: "p", ..form() };
    let args = update_bead(Scope::Repo, "x-1", &nb).args;
    assert_eq!(args.len(), 10);
    assert_eq!(args[8..], ["--parent", "p"]);
}

#[test]
fn global_calls_say_so() {
    let call = load(Scope::Global, false);
    let inv = run(&call, Some("/bin".to_string()));
    assert_eq!(inv.args, ["--global", "list", "--json"]);
    assert_eq!(
        inv.env,
        [
            ("PATH".to_string(), "/opt/homebrew/bin:/usr/local/bin:/bin".to_string()),
            ("BEADS_DOLT_SHARED_SERVER".to_string(), "1".to_string())
        ]
    );
    let inv = run(&load(Scope::Repo, false), None);
    assert_eq!(inv.args, ["list", "--json"]);
    assert!(inv.env.is_empty());
}

#[test]
fn a_run_gives_its_output_or_its_error() {
    let call: Call = load(Scope::Global, false);
    let ok = Ended::Exited { success: true, stdout: b"ok\xff\n".to_vec(), stderr: b"x".to_vec() };
    assert_eq!(run_outcome(&call, ok).unwrap(), "ok\u{fffd}\n");
    let bad = Ended::Exited { success: false, stdout: Vec::new(), stderr: b" no db\n".to_vec() };
    assert_eq!(run_outcome(&call, bad).unwrap_err().message(), "bd list --json: no db");
    assert_eq!(failure(&call, "\n gone ").message(), "bd list --json: gone");
    let none = Ended::NotStarted("not found".to_string());
    assert_eq!(
        run_outcome(&call, none).unwrap_err().message(),
        "failed to spawn bd list --json"
    );
}

#[test]
fn pinned_issues_are_hidden_with_the_closed_ones() {
    let all = || vec![bead("a", "open"), bead("p", "pinned"), bead("c", "closed"), bead("a", "open")];
    assert_eq!(ids(board(true, all())), ["a", "c", "a"]);
    assert_eq!(ids(board(false, all())), ["a", "p", "c", "a"]);
    let reply = r#"[{"id":"p","status":"pinned"},{"id":"c","status":"closed"}]"#;
    assert_eq!(ids(load_reply(true, Ok(reply.to_string()), decode).unwrap()), ["c"]);
    assert_eq!(ids(load_reply(false, Ok(reply.to_string()), decode).unwrap()), ["p", "c"]);
    assert_eq!(
        load_reply(true, Err(failed()), decode).unwrap_err().message(),
        "bd list --json: no database"
    );
}

#[test]
fn show_takes_the_first_issue() {
    let reply = r#"[{"id":"a"},{"id":"b"}]"#.to_string();
    assert_eq!(show_reply(Ok(reply), decode).unwrap().unwrap().id, "a");
    assert!(show_reply(Ok("\n".to_string()), decode).unwrap().is_none());
    assert!(show_reply(Ok("nope".to_string()), decode).is_err());
    assert!(show_reply(Err(failed()), decode).is_err());
    assert!(first_bead(Vec::new()).is_none());
}

#[test]
fn writes_pass_on_failures_alone() {
    assert!(write_reply(Ok("whatever".to_string())).is_ok());
    assert!(write_reply(Err(failed())).is_err());
}

#[test]
fn a_deferred_issue_goes_to_the_backlog() {
    let deferred = NewBead { deferred: true, ..form() };
    let made = create_reply(Scope::Global, &deferred, Ok(" x-7\n".to_string())).unwrap();
    assert_eq!(made.id, "x-7");
    let next = made.follow_up.unwrap();
    assert_eq!(next.args, ["update", "x-7", "-s", "deferred"]);
    assert_eq!(next.scope, Scope::Global);
    let made = create_reply(Scope::Repo, &deferred, Ok("\n".to_string())).unwrap();
    assert!(made.id.is_empty() && made.follow_up.is_none());
    let made = create_reply(Scope::Repo, &form(), Ok("x-8".to_string())).unwrap();
    assert!(made.id == "x-8" && made.follow_up.is_none());
    assert!(create_reply(Scope::Repo, &deferred, Err(failed())).is_err());
}

#[test]
fn an_update_defers_only_when_asked() {
    let deferred = NewBead { deferred: true, ..form() };
    let next = update_reply(Scope::Repo, "x-1", &deferred, Ok(String::new())).unwrap().unwrap();
    assert_eq!(next.args, ["update", "x-1", "-s", "deferred"]);
    assert!(update_reply(Scope::Repo, "x-1", &form(), Ok(String::new())).unwrap().is_none());
    assert!(update_reply(Scope::Repo, "x-1", &deferred, Err(failed())).is_err());
}

#[test]
fn the_review_command_is_split_into_words() {
    let reply = |s: &str| review_reply(Ok(s.to_string()));
    assert_eq!(
        reply(r#"{"key":"k","value":" tools/review.sh  --all\t"}"#).unwrap(),
        ["tools/review.sh", "--all"]
    );
    assert!(reply(r#"{"key":"k"}"#).unwrap().is_empty());
    assert!(reply(r#"{"value":7}"#).unwrap().is_empty());
    assert!(reply("[]").unwrap().is_empty());
    assert!(review_words_of(&Value::Null).is_empty());
    let e = reply("").unwrap_err();
    assert_eq!(e.message(), "EOF while parsing a value at line 1 column 0");
    assert!(matches!(e, BdError::Document { .. }));
    assert!(review_reply(Err(failed())).is_err());
}

#[test]
fn a_shown_issue_keeps_its_dependencies() {
    let reply = r#"[{"id":"a","dependencies":[{"id":"b","title":"first"},{"depends_on_id":"c"},{"title":"t"}]}]"#;
    let shown = show_reply(Ok(reply.to_string()), decode).unwrap().unwrap();
    let ids: Vec<Option<&str>> = shown.dependencies.iter().map(|d| d.other_id()).collect();
    assert_eq!(ids, [Some("b"), Some("c"), None]);
    assert_eq!(shown.dependencies[0].title.as_deref(), Some("first"));
    for d in &shown.dependencies {
        assert!(d.other_id().is_some() || d.title.is_some());
    }
}

#[test]
fn white_space_around_a_reply_makes_no_difference() {
    let plain = r#"[{"id":"a"},{"id":"b"}]"#;
    let padded = format!("\u{a0}\n {}\t\u{3000}", plain);
    assert_eq!(ids(parse_list(&padded, decode).unwrap()), ids(parse_list(plain, decode).unwrap()));
    assert!(parse_list(" x ", decode).is_err() && parse_list("x", decode).is_err());
}

#[test]
fn other_errors_say_what_they_say() {
    assert_eq!(BdError::Other { message: "no editor".to_string() }.message(), "no editor");
}
