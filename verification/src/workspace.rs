//! Which repository the board shows.
//!
//! herdr starts the board in its own plugin directory, so the board asks herdr
//! for the panes that are open and picks the working directory of one of them.

use crate::json;
use crate::json::Json;
use crate::text;
use serde_json::Value;
use vstd::prelude::*;
use vstd::string::StrSliceExecFns;

verus! {

/// A pane as `herdr pane list` describes it; a member that is missing or of
/// another type is `None`.
#[derive(Debug)]
pub struct Pane {
    pub pane_id: Option<String>,
    pub cwd: Option<String>,
    pub workspace_id: Option<String>,
    pub focused: Option<bool>,
}

/// The model of a [`Pane`].
#[verifier::ext_equal]
pub struct PaneModel {
    pub pane_id: Option<Seq<char>>,
    pub cwd: Option<Seq<char>>,
    pub workspace_id: Option<Seq<char>>,
    pub focused: Option<bool>,
}

impl View for Pane {
    type V = PaneModel;

    open spec fn view(&self) -> PaneModel {
        PaneModel {
            pane_id: json::text_of(self.pane_id),
            cwd: json::text_of(self.cwd),
            workspace_id: json::text_of(self.workspace_id),
            focused: self.focused,
        }
    }
}

/// A directory that the board may show, with what speaks for it.
#[derive(Debug)]
pub struct Candidate {
    pub cwd: String,
    /// The directory holds a `.beads` directory.
    pub has_beads: bool,
    /// The pane has the focus.
    pub focused: bool,
    /// The pane is in the board's own workspace.
    pub in_workspace: bool,
}

/// The model of a [`Candidate`].
#[verifier::ext_equal]
pub struct CandidateModel {
    pub cwd: Seq<char>,
    pub has_beads: bool,
    pub focused: bool,
    pub in_workspace: bool,
}

impl View for Candidate {
    type V = CandidateModel;

    open spec fn view(&self) -> CandidateModel {
        CandidateModel {
            cwd: self.cwd@,
            has_beads: self.has_beads,
            focused: self.focused,
            in_workspace: self.in_workspace,
        }
    }
}

/// The models of a list of panes.
pub open spec fn pane_models(panes: Seq<Pane>) -> Seq<PaneModel> {
    panes.map_values(|p: Pane| p@)
}

/// The models of a list of candidates.
pub open spec fn candidate_models(candidates: Seq<Candidate>) -> Seq<CandidateModel> {
    candidates.map_values(|c: Candidate| c@)
}

/// The pane that an item of the pane list describes.
pub open spec fn pane_in(item: Json) -> PaneModel {
    PaneModel {
        pane_id: item.text_member("pane_id"@),
        cwd: item.text_member("cwd"@),
        workspace_id: item.text_member("workspace_id"@),
        focused: item.truth_member("focused"@),
    }
}

/// The panes that a reply of `herdr pane list` describes: the items of the
/// array `panes` of the object `result`.
pub open spec fn panes_in(doc: Json) -> Option<Seq<PaneModel>> {
    match doc.member("result"@) {
        Some(result) => match result.member("panes"@) {
            Some(panes) => match panes.as_items() {
                Some(items) => Some(items.map_values(|i: Json| pane_in(i))),
                None => None,
            },
            None => None,
        },
        None => None,
    }
}

/// The panes that a document describes.
pub fn panes_of(doc: &Value) -> (r: Option<Vec<Pane>>)
    ensures
        match r {
            Some(panes) => panes_in(json::held(*doc)) == Some(pane_models(panes@)),
            None => panes_in(json::held(*doc)) is None,
        },
{
    let result = match json::get(doc, "result") {
        Some(v) => v,
        None => {
            return None;
        },
    };
    let panes = match json::get(result, "panes") {
        Some(v) => v,
        None => {
            return None;
        },
    };
    let items = match panes.as_array() {
        Some(items) => items,
        None => {
            return None;
        },
    };
    let mut r: Vec<Pane> = Vec::new();
    let n: usize = items.len();
    let ghost all = items@.map_values(|i: Value| json::held(i)).map_values(|i: Json| pane_in(i));
    let mut i: usize = 0;
    while i < n
        invariant
            n == items@.len(),
            all == items@.map_values(|i: Value| json::held(i)).map_values(|i: Json| pane_in(i)),
            i <= n,
            pane_models(r@) == all.take(i as int),
        decreases n - i,
    {
        let item = &items[i];
        let pane = Pane {
            pane_id: json::text_at(item, "pane_id"),
            cwd: json::text_at(item, "cwd"),
            workspace_id: json::text_at(item, "workspace_id"),
            focused: json::truth_at(item, "focused"),
        };
        let ghost before = r@;
        r.push(pane);
        proof {
            assert(pane@ == all[i as int]);
            assert(pane_models(r@) =~= pane_models(before).push(pane@));
            assert(all.take(i + 1) =~= all.take(i as int).push(all[i as int]));
        }
        i = i + 1;
    }
    assert(all.take(n as int) =~= all);
    Some(r)
}

/// The panes in the reply of `herdr pane list`: none if the command failed or
/// wrote something else.
pub fn pane_list(success: bool, stdout: &[u8]) -> (r: Option<Vec<Pane>>)
    ensures
        match r {
            Some(panes) => {
                &&& success
                &&& json::parsed_bytes(stdout@) matches Some(doc)
                &&& panes_in(doc) == Some(pane_models(panes@))
            },
            None => {
                ||| !success
                ||| json::parsed_bytes(stdout@) is None
                ||| panes_in(json::parsed_bytes(stdout@)->0) is None
            },
        },
{
    if !success {
        return None;
    }
    match json::parse_bytes(stdout) {
        Some(doc) => panes_of(&doc),
        None => None,
    }
}

/// The text of an optional text; the empty text for none.
pub open spec fn or_empty(text: Option<Seq<char>>) -> Seq<char> {
    match text {
        Some(text) => text,
        None => seq![],
    }
}

/// Whether `pane` is another pane than `me` and says where it works.
pub open spec fn is_candidate(pane: PaneModel, me: Seq<char>) -> bool {
    or_empty(pane.pane_id) != me && pane.cwd is Some
}

/// The candidate that a pane makes, for a board in the workspace `ws` (empty
/// where the board is in none).
pub open spec fn candidate_of(pane: PaneModel, ws: Seq<char>) -> CandidateModel {
    CandidateModel {
        cwd: pane.cwd->0,
        has_beads: false,
        focused: pane.focused == Some(true),
        in_workspace: ws.len() > 0 && pane.workspace_id == Some(ws),
    }
}

/// The candidates that a list of panes makes, in the order of the panes.
pub open spec fn candidates_in(panes: Seq<PaneModel>, me: Seq<char>, ws: Seq<char>) -> Seq<CandidateModel> {
    panes.filter(|p: PaneModel| is_candidate(p, me)).map_values(|p: PaneModel| candidate_of(p, ws))
}

/// The directories of the panes other than `me`, with what the pane list says
/// for each. Whether one holds a `.beads` directory is yet to be looked up.
pub fn repo_candidates(panes: Vec<Pane>, me: &str, ws: &str) -> (r: Vec<Candidate>)
    ensures
        candidate_models(r@) == candidates_in(pane_models(panes@), me@, ws@),
{
    let ghost models = pane_models(panes@);
    let ghost keep = |p: PaneModel| is_candidate(p, me@);
    let ghost make = |p: PaneModel| candidate_of(p, ws@);
    let mut r: Vec<Candidate> = Vec::new();
    let n: usize = panes.len();
    let mut i: usize = 0;
    proof {
        reveal(Seq::filter);
        assert(candidate_models(r@) =~= models.take(0).filter(keep).map_values(make));
    }
    while i < n
        invariant
            n == panes@.len(),
            models == pane_models(panes@),
            keep == (|p: PaneModel| is_candidate(p, me@)),
            make == (|p: PaneModel| candidate_of(p, ws@)),
            i <= n,
            candidate_models(r@) == models.take(i as int).filter(keep).map_values(make),
        decreases n - i,
    {
        let pane = &panes[i];
        let other = match &pane.pane_id {
            Some(id) => !text::same(id.as_str(), me),
            None => !me.is_empty(),
        };
        let ghost before = r@;
        proof {
            reveal(Seq::filter);
            assert(models.take(i + 1).drop_last() =~= models.take(i as int));
            assert(models.take(i + 1).last() == pane@);
            assert(me@.len() == 0 ==> me@ =~= seq![]);
        }
        if other {
            if let Some(cwd) = &pane.cwd {
                let focused = match pane.focused {
                    Some(f) => f,
                    None => false,
                };
                let in_workspace = match &pane.workspace_id {
                    Some(id) => !ws.is_empty() && text::same(id.as_str(), ws),
                    None => false,
                };
                let c = Candidate { cwd: cwd.clone(), has_beads: false, focused, in_workspace };
                r.push(c);
                proof {
                    assert(keep(pane@));
                    assert(c@ == make(pane@));
                    assert(candidate_models(r@) =~= candidate_models(before).push(c@));
                    assert(models.take(i as int).filter(keep).push(pane@).map_values(make)
                        =~= models.take(i as int).filter(keep).map_values(make).push(make(pane@)));
                }
            }
        }
        i = i + 1;
    }
    assert(models.take(n as int) =~= models);
    r
}

/// What speaks for a candidate: a `.beads` directory first, then the focus,
/// then the board's own workspace.
pub open spec fn score(c: CandidateModel) -> int {
    (if c.has_beads {
        4int
    } else {
        0
    }) + (if c.focused {
        2int
    } else {
        0
    }) + (if c.in_workspace {
        1int
    } else {
        0
    })
}

/// Whether `a` is preferred to `b` or as good: by score, and among equal
/// scores by the later directory name.
pub open spec fn as_good(a: CandidateModel, b: CandidateModel) -> bool {
    ||| score(a) > score(b)
    ||| score(a) == score(b) && text::ordered(b.cwd, a.cwd)
}

/// Whether no candidate is better than the one at `k`.
pub open spec fn is_best(candidates: Seq<CandidateModel>, k: int) -> bool {
    &&& 0 <= k < candidates.len()
    &&& forall|j: int| 0 <= j < candidates.len() ==> as_good(candidates[k], #[trigger] candidates[j])
}

/// The character that ends a directory name.
pub const SEPARATOR: char = '\u{1}';

/// `s` up to the first separator.
pub open spec fn until_separator(s: Seq<char>) -> Seq<char>
    decreases s.len(),
{
    if s.len() == 0 || s.first() == SEPARATOR {
        seq![]
    } else {
        seq![s.first()] + until_separator(s.drop_first())
    }
}

fn score_of(c: &Candidate) -> (r: u8)
    ensures
        r == score(c@),
        r <= 7,
{
    let beads: u8 = if c.has_beads {
        4
    } else {
        0
    };
    let focus: u8 = if c.focused {
        2
    } else {
        0
    };
    let workspace: u8 = if c.in_workspace {
        1
    } else {
        0
    };
    beads + focus + workspace
}

proof fn lemma_until_separator(s: Seq<char>, n: int)
    requires
        0 <= n <= s.len(),
        forall|k: int| 0 <= k < n ==> #[trigger] s[k] != SEPARATOR,
        n == s.len() || s[n] == SEPARATOR,
    ensures
        until_separator(s) == s.take(n),
    decreases n,
{
    if n > 0 {
        let t = s.drop_first();
        assert(s[0] != SEPARATOR);
        assert forall|k: int| 0 <= k < n - 1 implies #[trigger] t[k] != SEPARATOR by {
            assert(t[k] == s[k + 1]);
        }
        lemma_until_separator(t, n - 1);
        assert(seq![s.first()] + t.take(n - 1) =~= s.take(n));
    } else {
        assert(s.take(0) =~= seq![]);
    }
}

fn cut_at_separator(s: &str) -> (r: String)
    ensures
        r@ == until_separator(s@),
{
    let chars = text::chars_of(s);
    let mut n: usize = 0;
    while n < chars.len() && chars[n] != SEPARATOR
        invariant
            n <= chars@.len(),
            forall|k: int| 0 <= k < n ==> #[trigger] chars@[k] != SEPARATOR,
        decreases chars@.len() - n,
    {
        n = n + 1;
    }
    proof {
        lemma_until_separator(s@, n as int);
    }
    s.substring_char(0, n).to_owned()
}

proof fn lemma_as_good_is_transitive(a: CandidateModel, b: CandidateModel, c: CandidateModel)
    requires
        as_good(a, b),
        as_good(b, c),
    ensures
        as_good(a, c),
{
    if score(a) == score(b) && score(b) == score(c) {
        text::lemma_ordered_is_transitive(c.cwd, b.cwd, a.cwd);
    }
}

/// The directory to show: that of the best candidate, none where there is no
/// candidate. What follows a separator in its name is left out.
pub fn resolve_repo_cwd(candidates: &[Candidate]) -> (r: Option<String>)
    ensures
        r is None <==> candidates@.len() == 0,
        r matches Some(dir) ==> exists|k: int|
            #[trigger] is_best(candidate_models(candidates@), k) && dir@ == until_separator(
                candidates@[k].cwd@,
            ),
        r matches Some(dir) ==> exists|k: int|
            {
                &&& 0 <= k < candidates@.len()
                &&& dir@ == until_separator((#[trigger] candidates@[k]).cwd@)
                &&& forall|j: int|
                    0 <= j < candidates@.len() ==> {
                        let c = candidates@[k];
                        let d = #[trigger] candidates@[j];
                        &&& d.has_beads ==> c.has_beads
                        &&& d.has_beads == c.has_beads ==> (d.focused ==> c.focused)
                        &&& d.has_beads == c.has_beads && d.focused == c.focused ==> (d.in_workspace
                            ==> c.in_workspace)
                        &&& d.has_beads == c.has_beads && d.focused == c.focused && d.in_workspace
                            == c.in_workspace ==> text::ordered(d.cwd@, c.cwd@)
                    }
            },
{
    let n: usize = candidates.len();
    if n == 0 {
        return None;
    }
    let ghost models = candidate_models(candidates@);
    let mut best: usize = 0;
    let mut i: usize = 1;
    proof {
        text::lemma_ordered_is_total(models[0].cwd, models[0].cwd);
    }
    while i < n
        invariant
            n == candidates@.len(),
            models == candidate_models(candidates@),
            best < i <= n,
            forall|j: int| 0 <= j < i ==> as_good(models[best as int], #[trigger] models[j]),
        decreases n - i,
    {
        let s: u8 = score_of(&candidates[i]);
        let t: u8 = score_of(&candidates[best]);
        proof {
            text::lemma_ordered_is_total(models[i as int].cwd, models[best as int].cwd);
            text::lemma_ordered_is_total(models[i as int].cwd, models[i as int].cwd);
        }
        if s > t || (s == t && text::is_ordered(candidates[best].cwd.as_str(), candidates[i].cwd.as_str())) {
            assert forall|j: int| 0 <= j < i + 1 implies as_good(models[i as int], #[trigger] models[j]) by {
                if j < i {
                    lemma_as_good_is_transitive(models[i as int], models[best as int], models[j]);
                }
            }
            best = i;
        }
        i = i + 1;
    }
    assert(is_best(models, best as int));
    proof {
        let k = best as int;
        assert forall|j: int| 0 <= j < candidates@.len() implies {
            let c = candidates@[k];
            let d = #[trigger] candidates@[j];
            &&& d.has_beads ==> c.has_beads
            &&& d.has_beads == c.has_beads ==> (d.focused ==> c.focused)
            &&& d.has_beads == c.has_beads && d.focused == c.focused ==> (d.in_workspace
                ==> c.in_workspace)
            &&& d.has_beads == c.has_beads && d.focused == c.focused && d.in_workspace
                == c.in_workspace ==> text::ordered(d.cwd@, c.cwd@)
        } by {
            assert(models[j] == candidates@[j]@);
            assert(models[k] == candidates@[k]@);
            law_preference(models, k, j);
        }
    }
    Some(cut_at_separator(candidates[best].cwd.as_str()))
}

/// Law: the directory to show does not depend on the order of the candidates:
/// the best of two lists with the same candidates name the same directory.
pub proof fn law_best_directory_is_unique(
    a: Seq<CandidateModel>,
    k: int,
    b: Seq<CandidateModel>,
    l: int,
)
    requires
        is_best(a, k),
        is_best(b, l),
        a.to_multiset() == b.to_multiset(),
    ensures
        a[k].cwd == b[l].cwd,
        score(a[k]) == score(b[l]),
{
    a.to_multiset_ensures();
    b.to_multiset_ensures();
    assert(a.contains(a[k]));
    assert(b.contains(b[l]));
    assert(a.to_multiset().count(a[k]) > 0 && b.to_multiset().count(b[l]) > 0);
    assert(b.contains(a[k]) && a.contains(b[l]));
    let i = choose|i: int| 0 <= i < b.len() && b[i] == a[k];
    let j = choose|j: int| 0 <= j < a.len() && a[j] == b[l];
    assert(as_good(b[l], b[i]));
    assert(as_good(a[k], a[j]));
    text::lemma_ordered_is_total(a[k].cwd, b[l].cwd);
}

/// Law: a directory with `.beads` wins over every one without, then a focused
/// pane over one that is not, then one in the board's own workspace.
pub proof fn law_preference(candidates: Seq<CandidateModel>, k: int, j: int)
    requires
        is_best(candidates, k),
        0 <= j < candidates.len(),
    ensures
        candidates[j].has_beads ==> candidates[k].has_beads,
        candidates[j].has_beads == candidates[k].has_beads ==> {
            &&& candidates[j].focused ==> candidates[k].focused
            &&& candidates[j].focused == candidates[k].focused ==> (candidates[j].in_workspace
                ==> candidates[k].in_workspace)
        },
        candidates[j].has_beads == candidates[k].has_beads && candidates[j].focused
            == candidates[k].focused && candidates[j].in_workspace == candidates[k].in_workspace
            ==> text::ordered(candidates[j].cwd, candidates[k].cwd),
{
    assert(as_good(candidates[k], candidates[j]));
}

/// What became known while the board looks for its directory.
pub enum DirEvent {
    /// The directory that the launcher asks for, if it asks for one.
    Override(Option<String>),
    /// Whether the current directory holds a `.beads` directory.
    BeadsHere(bool),
    /// The directory that herdr's panes lead to, if any.
    Repo(Option<String>),
}

/// What is to be found out next.
#[derive(Clone, Copy, Debug, PartialEq, Eq, Structural)]
pub enum DirQuestion {
    LookForBeads,
    AskHerdr,
    Nothing,
}

/// One step towards the working directory: first change to `change`, where
/// there is one, then find out `next`.
pub struct DirStep {
    pub change: Option<String>,
    pub next: DirQuestion,
}

/// The step that follows an event. A directory that the launcher names is
/// taken unless it is empty; herdr is asked only where there is no `.beads`.
pub fn apply_working_dir(event: DirEvent) -> (r: DirStep)
    ensures
        match event {
            DirEvent::Override(dir) => {
                &&& r.next == DirQuestion::LookForBeads
                &&& r.change == if dir is Some && dir->0@.len() > 0 {
                    dir
                } else {
                    None
                }
            },
            DirEvent::BeadsHere(here) => {
                &&& r.next == if here {
                    DirQuestion::Nothing
                } else {
                    DirQuestion::AskHerdr
                }
                &&& r.change is None
            },
            DirEvent::Repo(dir) => r.next == DirQuestion::Nothing && r.change == dir,
        },
{
    match event {
        DirEvent::Override(dir) => {
            let change = match dir {
                Some(dir) => if dir.as_str().is_empty() {
                    None
                } else {
                    Some(dir)
                },
                None => None,
            };
            DirStep { change, next: DirQuestion::LookForBeads }
        },
        DirEvent::BeadsHere(here) => DirStep {
            change: None,
            next: if here {
                DirQuestion::Nothing
            } else {
                DirQuestion::AskHerdr
            },
        },
        DirEvent::Repo(dir) => DirStep { change: dir, next: DirQuestion::Nothing },
    }
}

/// Law: the model of a pane and that of a candidate say field by field what
/// the value says, and lists are modelled item by item.
pub proof fn law_models_say_what_values_say(p: Pane, c: Candidate, ps: Seq<Pane>, cs: Seq<Candidate>)
    ensures
        p@.pane_id == match p.pane_id {
            Some(s) => Some(s@),
            None => None,
        },
        p@.cwd == match p.cwd {
            Some(s) => Some(s@),
            None => None,
        },
        p@.workspace_id == match p.workspace_id {
            Some(s) => Some(s@),
            None => None,
        },
        p@.focused == p.focused,
        c@.cwd == c.cwd@ && c@.has_beads == c.has_beads && c@.focused == c.focused
            && c@.in_workspace == c.in_workspace,
        pane_models(ps).len() == ps.len(),
        forall|i: int| 0 <= i < ps.len() ==> #[trigger] pane_models(ps)[i] == ps[i]@,
        candidate_models(cs).len() == cs.len(),
        forall|i: int| 0 <= i < cs.len() ==> #[trigger] candidate_models(cs)[i] == cs[i]@,
{
}

/// Law: a reply has panes exactly where its object `result` has an array
/// `panes`; then there is one pane for each item, in order, and each member of
/// a pane is the text or truth value under its name in the item, none where
/// that is missing or of another type.
pub proof fn law_panes_are_the_items(doc: Json)
    ensures
        panes_in(doc) is Some <==> {
            &&& doc is Object && doc->Object_0.contains_key("result"@)
            &&& doc->Object_0["result"@] is Object
            &&& doc->Object_0["result"@]->Object_0.contains_key("panes"@)
            &&& doc->Object_0["result"@]->Object_0["panes"@] is Array
        },
        panes_in(doc) matches Some(panes) ==> {
            let items = doc->Object_0["result"@]->Object_0["panes"@]->Array_0;
            &&& panes.len() == items.len()
            &&& forall|i: int|
                0 <= i < items.len() ==> {
                    let p = #[trigger] panes[i];
                    let m = items[i]->Object_0;
                    let o = items[i] is Object;
                    &&& p.pane_id == if o && m.contains_key("pane_id"@) && m["pane_id"@] is Text {
                        Some(m["pane_id"@]->Text_0)
                    } else {
                        None
                    }
                    &&& p.cwd == if o && m.contains_key("cwd"@) && m["cwd"@] is Text {
                        Some(m["cwd"@]->Text_0)
                    } else {
                        None
                    }
                    &&& p.workspace_id == if o && m.contains_key("workspace_id"@)
                        && m["workspace_id"@] is Text {
                        Some(m["workspace_id"@]->Text_0)
                    } else {
                        None
                    }
                    &&& p.focused == if o && m.contains_key("focused"@) && m["focused"@] is Bool {
                        Some(m["focused"@]->Bool_0)
                    } else {
                        None
                    }
                }
        },
{
}

/// Law: one more pane adds one more candidate at the end, or none. It adds
/// none where the pane is the board's own or does not say where it works. Else
/// the candidate has the pane's directory; it is focused exactly where the
/// pane says so, and in the workspace exactly where the board is in one and the
/// pane names the same, whatever the other members are.
pub proof fn law_one_more_pane(panes: Seq<PaneModel>, p: PaneModel, me: Seq<char>, ws: Seq<char>)
    ensures
        candidates_in(seq![], me, ws) == Seq::<CandidateModel>::empty(),
        p.cwd is None || p.pane_id == Some(me) || (p.pane_id is None && me.len() == 0)
            ==> candidates_in(panes.push(p), me, ws) == candidates_in(panes, me, ws),
        p.cwd is Some && (match p.pane_id {
            Some(id) => id != me,
            None => me.len() > 0,
        }) ==> {
            let after = candidates_in(panes.push(p), me, ws);
            &&& after.len() == candidates_in(panes, me, ws).len() + 1
            &&& after.drop_last() == candidates_in(panes, me, ws)
            &&& after.last().cwd == p.cwd->0
            &&& !after.last().has_beads
            &&& after.last().focused <==> p.focused == Some(true)
            &&& after.last().in_workspace <==> ws.len() > 0 && p.workspace_id == Some(ws)
        },
{
    reveal(Seq::filter);
    let keep = |q: PaneModel| is_candidate(q, me);
    let make = |q: PaneModel| candidate_of(q, ws);
    let none: Seq<PaneModel> = seq![];
    assert(none.filter(keep).map_values(make) =~= seq![]);
    assert(panes.push(p).drop_last() =~= panes);
    assert(panes.push(p).last() == p);
    assert(me.len() == 0 ==> me =~= seq![]);
    if keep(p) {
        assert(panes.filter(keep).push(p).map_values(make) =~= panes.filter(keep).map_values(
            make,
        ).push(make(p)));
        assert(candidates_in(panes.push(p), me, ws).drop_last() =~= candidates_in(panes, me, ws));
    }
}

/// Whether `p` is a pane of the list other than `me` that says where it works.
pub open spec fn is_other_pane(panes: Seq<PaneModel>, p: int, me: Seq<char>) -> bool {
    &&& 0 <= p < panes.len()
    &&& panes[p].cwd is Some
    &&& match panes[p].pane_id {
        Some(id) => id != me,
        None => me.len() > 0,
    }
}

spec fn comes_from(panes: Seq<PaneModel>, me: Seq<char>, ws: Seq<char>, c: CandidateModel) -> bool {
    exists|p: int| #[trigger] is_other_pane(panes, p, me) && candidate_of(panes[p], ws) == c
}

proof fn lemma_candidates_match_panes(panes: Seq<PaneModel>, me: Seq<char>, ws: Seq<char>)
    ensures
        forall|p: int|
            #[trigger] is_other_pane(panes, p, me) ==> candidates_in(panes, me, ws).contains(
                candidate_of(panes[p], ws),
            ),
        forall|c: int|
            0 <= c < candidates_in(panes, me, ws).len() ==> comes_from(
                panes,
                me,
                ws,
                #[trigger] candidates_in(panes, me, ws)[c],
            ),
    decreases panes.len(),
{
    if panes.len() == 0 {
        assert(panes =~= seq![]);
        let p = PaneModel { pane_id: None, cwd: None, workspace_id: None, focused: None };
        law_one_more_pane(panes, p, me, ws);
        assert(candidates_in(panes, me, ws).len() == 0);
    } else {
        let rest = panes.drop_last();
        let last = panes.last();
        lemma_candidates_match_panes(rest, me, ws);
        law_one_more_pane(rest, last, me, ws);
        assert(rest.push(last) =~= panes);
        let n = panes.len() - 1;
        let before = candidates_in(rest, me, ws);
        let after = candidates_in(panes, me, ws);
        assert forall|p: int| #[trigger] is_other_pane(panes, p, me) implies after.contains(
            candidate_of(panes[p], ws),
        ) by {
            if p < n {
                assert(is_other_pane(rest, p, me));
                let c = choose|c: int| 0 <= c < before.len() && before[c] == candidate_of(rest[p], ws);
                if is_other_pane(panes, n, me) {
                    assert(after.drop_last()[c] == after[c]);
                }
                assert(after[c] == candidate_of(panes[p], ws));
            } else {
                assert(after.last() =~= candidate_of(last, ws));
                assert(after[after.len() - 1] == candidate_of(last, ws));
            }
        }
        assert forall|c: int| 0 <= c < after.len() implies comes_from(
            panes,
            me,
            ws,
            #[trigger] after[c],
        ) by {
            if c < before.len() {
                if is_other_pane(panes, n, me) {
                    assert(after.drop_last()[c] == after[c]);
                }
                assert(after[c] == before[c]);
                assert(comes_from(rest, me, ws, before[c]));
                let p = choose|p: int|
                    #[trigger] is_other_pane(rest, p, me) && candidate_of(rest[p], ws) == before[c];
                assert(is_other_pane(panes, p, me));
            } else {
                assert(is_other_pane(panes, n, me));
                assert(after[c] =~= candidate_of(last, ws));
            }
        }
    }
}

/// Law: from the panes to the directory that is shown, given which directories
/// hold `.beads`. It is the directory of a pane other than the board's own, and
/// against every such pane it holds: it has `.beads` if the other has; if they
/// are level in that, its pane is focused if the other is; if they are level in
/// that too, its pane is in the board's workspace if the other is; and if they
/// are level in all, its name comes no earlier.
pub proof fn law_shown_directory(
    panes: Seq<PaneModel>,
    me: Seq<char>,
    ws: Seq<char>,
    beads: spec_fn(Seq<char>) -> bool,
    k: int,
)
    requires
        is_best(
            candidates_in(panes, me, ws).map_values(
                |c: CandidateModel| CandidateModel { has_beads: beads(c.cwd), ..c },
            ),
            k,
        ),
    ensures
        exists|p: int|
            {
                &&& #[trigger] is_other_pane(panes, p, me)
                &&& panes[p].cwd == Some(candidates_in(panes, me, ws)[k].cwd)
                &&& forall|q: int| #[trigger]
                    is_other_pane(panes, q, me) ==> {
                        let (a, b) = (panes[p], panes[q]);
                        let level_beads = beads(a.cwd->0) == beads(b.cwd->0);
                        let level_focus = (a.focused == Some(true)) == (b.focused == Some(true));
                        let level_place = (a.workspace_id == Some(ws)) == (b.workspace_id == Some(
                            ws,
                        ));
                        &&& beads(b.cwd->0) ==> beads(a.cwd->0)
                        &&& level_beads && b.focused == Some(true) ==> a.focused == Some(true)
                        &&& level_beads && level_focus && ws.len() > 0 && b.workspace_id == Some(ws)
                            ==> a.workspace_id == Some(ws)
                        &&& level_beads && level_focus && (level_place || ws.len() == 0)
                            ==> text::ordered(b.cwd->0, a.cwd->0)
                    }
            },
{
    let found = candidates_in(panes, me, ws);
    let fill = |c: CandidateModel| CandidateModel { has_beads: beads(c.cwd), ..c };
    let filled = found.map_values(fill);
    lemma_candidates_match_panes(panes, me, ws);
    assert(comes_from(panes, me, ws, found[k]));
    let p = choose|p: int|
        #[trigger] is_other_pane(panes, p, me) && candidate_of(panes[p], ws) == found[k];
    assert(filled[k] == fill(found[k]));
    assert(candidate_of(panes[p], ws) == found[k]);
    assert forall|q: int| #[trigger] is_other_pane(panes, q, me) implies {
        let (a, b) = (panes[p], panes[q]);
        let level_beads = beads(a.cwd->0) == beads(b.cwd->0);
        let level_focus = (a.focused == Some(true)) == (b.focused == Some(true));
        let level_place = (a.workspace_id == Some(ws)) == (b.workspace_id == Some(ws));
        &&& beads(b.cwd->0) ==> beads(a.cwd->0)
        &&& level_beads && b.focused == Some(true) ==> a.focused == Some(true)
        &&& level_beads && level_focus && ws.len() > 0 && b.workspace_id == Some(ws)
            ==> a.workspace_id == Some(ws)
        &&& level_beads && level_focus && (level_place || ws.len() == 0) ==> text::ordered(
            b.cwd->0,
            a.cwd->0,
        )
    } by {
        let j = choose|j: int| 0 <= j < found.len() && found[j] == candidate_of(panes[q], ws);
        assert(filled[j] == fill(found[j]));
        law_preference(filled, k, j);
    }
}

/// Law: a directory is shown up to the first U+0001 in its name, and as it is
/// where there is none.
pub proof fn law_name_ends_at_the_separator(name: Seq<char>, rest: Seq<char>)
    requires
        forall|i: int| 0 <= i < name.len() ==> #[trigger] name[i] != '\u{1}',
    ensures
        until_separator(name) == name,
        until_separator(name.push('\u{1}') + rest) == name,
{
    lemma_until_separator(name, name.len() as int);
    assert(name.take(name.len() as int) =~= name);
    let all = name.push('\u{1}') + rest;
    assert forall|i: int| 0 <= i < name.len() implies #[trigger] all[i] != SEPARATOR by {
        assert(all[i] == name[i]);
    }
    lemma_until_separator(all, name.len() as int);
    assert(all.take(name.len() as int) =~= name);
}

} // verus!
