//! Requests to the `bd` command.
//!
//! Every request is a vector of arguments, never a line for a shell, so that a
//! title, a note or a reason always stays one argument. A request is made
//! here, run outside, and what came back is read here again.

use crate::bead::{Bead, NewBead, NewBeadModel};
use crate::error;
use crate::error::BdError;
use crate::json;
use crate::json::Json;
use crate::model::Scope;
use crate::text;
use serde_json::Value;
use vstd::prelude::*;
use vstd::string::StringExecFns;

verus! {

// ---------------------------------------------------------------- program

/// Where `bd` is looked for, in this order.
pub open spec fn places() -> Seq<Seq<char>> {
    seq![
        "/opt/homebrew/bin/bd"@,
        "/usr/local/bin/bd"@,
        "/usr/bin/bd"@,
        "/home/linuxbrew/.linuxbrew/bin/bd"@,
    ]
}

/// Where to look for `bd`.
pub fn bd_places() -> (r: [&'static str; 4])
    ensures
        r@.map_values(|s: &'static str| s@) == places(),
        r@[0]@ == "/opt/homebrew/bin/bd"@,
        r@[1]@ == "/usr/local/bin/bd"@,
        r@[2]@ == "/usr/bin/bd"@,
        r@[3]@ == "/home/linuxbrew/.linuxbrew/bin/bd"@,
{
    let r: [&'static str; 4] = [
        "/opt/homebrew/bin/bd",
        "/usr/local/bin/bd",
        "/usr/bin/bd",
        "/home/linuxbrew/.linuxbrew/bin/bd",
    ];
    assert(r@.map_values(|s: &'static str| s@) =~= places());
    r
}

/// The program to start, given at which of the places there is one: the first
/// of them, or whatever `bd` the search path leads to.
pub fn resolve_bd(present: [bool; 4]) -> (r: String)
    ensures
        forall|i: int|
            0 <= i < 4 && #[trigger] present@[i] && (forall|j: int|
                0 <= j < i ==> !#[trigger] present@[j]) ==> r@ == places()[i],
        (forall|i: int| 0 <= i < 4 ==> !#[trigger] present@[i]) ==> r@ == "bd"@,
        r@ == if present@[0] {
            "/opt/homebrew/bin/bd"@
        } else if present@[1] {
            "/usr/local/bin/bd"@
        } else if present@[2] {
            "/usr/bin/bd"@
        } else if present@[3] {
            "/home/linuxbrew/.linuxbrew/bin/bd"@
        } else {
            "bd"@
        },
{
    let candidates = bd_places();
    let ghost views = candidates@.map_values(|s: &'static str| s@);
    let mut i: usize = 0;
    while i < 4
        invariant
            i <= 4,
            views == places(),
            views == candidates@.map_values(|s: &'static str| s@),
            forall|j: int| 0 <= j < i ==> !#[trigger] present@[j],
        decreases 4 - i,
    {
        if present[i] {
            assert(views[i as int] == candidates@[i as int]@);
            return candidates[i].to_owned();
        }
        i = i + 1;
    }
    "bd".to_owned()
}

// ---------------------------------------------------------------- calls

/// A request: what to ask `bd`, and of which issues.
#[derive(Debug)]
pub struct Call {
    pub scope: Scope,
    pub args: Vec<String>,
}

/// The model of a [`Call`].
#[verifier::ext_equal]
pub struct CallModel {
    pub scope: Scope,
    pub args: Seq<Seq<char>>,
}

impl View for Call {
    type V = CallModel;

    open spec fn view(&self) -> CallModel {
        CallModel { scope: self.scope, args: text::texts(self.args@) }
    }
}

fn call(scope: Scope, parts: &[&str]) -> (r: Call)
    ensures
        r@ == (CallModel { scope, args: parts@.map_values(|s: &str| s@) }),
        r.scope == scope,
        r.args@.len() == parts@.len(),
        forall|i: int| 0 <= i < parts@.len() ==> (#[trigger] r.args@[i])@ == parts@[i]@,
{
    let mut args: Vec<String> = Vec::new();
    let ghost all = parts@.map_values(|s: &str| s@);
    let n: usize = parts.len();
    let mut i: usize = 0;
    while i < n
        invariant
            n == parts@.len(),
            i <= n,
            all == parts@.map_values(|s: &str| s@),
            text::texts(args@) == all.take(i as int),
        decreases n - i,
    {
        let ghost before = args@;
        args.push(parts[i].to_owned());
        proof {
            assert(text::texts(args@) =~= text::texts(before).push(all[i as int]));
            assert(all.take(i + 1) =~= all.take(i as int).push(all[i as int]));
        }
        i = i + 1;
    }
    assert(all.take(n as int) =~= all);
    assert forall|i: int| 0 <= i < parts@.len() implies (#[trigger] args@[i])@ == parts@[i]@ by {
        assert(text::texts(args@)[i] == all[i]);
    }
    assert(args@.len() == text::texts(args@).len());
    Call { scope, args }
}

/// Asks `bd` to set the status of an issue.
pub fn set_status(scope: Scope, id: &str, status: &str) -> (r: Call)
    ensures
        r@ == (CallModel { scope, args: seq!["update"@, id@, "-s"@, status@] }),
        r.scope == scope,
        r.args@.len() == 4,
        r.args@[0]@ == "update"@,
        r.args@[1]@ == id@,
        r.args@[2]@ == "-s"@,
        r.args@[3]@ == status@,
{
    let r = call(scope, &["update", id, "-s", status]);
    assert(r@ =~= (CallModel { scope, args: seq!["update"@, id@, "-s"@, status@] }));
    r
}

/// Asks `bd` to give an issue to whoever asks.
pub fn claim(scope: Scope, id: &str) -> (r: Call)
    ensures
        r@ == (CallModel { scope, args: seq!["update"@, id@, "--claim"@] }),
        r.scope == scope,
        r.args@.len() == 3,
        r.args@[0]@ == "update"@,
        r.args@[1]@ == id@,
        r.args@[2]@ == "--claim"@,
{
    let r = call(scope, &["update", id, "--claim"]);
    assert(r@ =~= (CallModel { scope, args: seq!["update"@, id@, "--claim"@] }));
    r
}

/// Asks `bd` to close an issue.
pub fn close(scope: Scope, id: &str, reason: &str) -> (r: Call)
    ensures
        r@ == (CallModel { scope, args: seq!["close"@, id@, "-r"@, reason@] }),
        r.scope == scope,
        r.args@.len() == 4,
        r.args@[0]@ == "close"@,
        r.args@[1]@ == id@,
        r.args@[2]@ == "-r"@,
        r.args@[3]@ == reason@,
{
    let r = call(scope, &["close", id, "-r", reason]);
    assert(r@ =~= (CallModel { scope, args: seq!["close"@, id@, "-r"@, reason@] }));
    r
}

/// Asks `bd` to set the priority of an issue.
pub fn set_priority(scope: Scope, id: &str, priority: u8) -> (r: Call)
    ensures
        r@ == (CallModel {
            scope,
            args: seq!["priority"@, id@, text::decimal(priority as nat)],
        }),
        r.scope == scope,
        r.args@.len() == 3,
        r.args@[0]@ == "priority"@,
        r.args@[1]@ == id@,
        r.args@[2]@ == text::decimal(priority as nat),
{
    let p = text::write_decimal(priority as u64);
    let r = call(scope, &["priority", id, p.as_str()]);
    assert(r@ =~= (CallModel {
        scope,
        args: seq!["priority"@, id@, text::decimal(priority as nat)],
    }));
    r
}

/// Asks `bd` to add a note to an issue.
pub fn add_note(scope: Scope, id: &str, note: &str) -> (r: Call)
    ensures
        r@ == (CallModel { scope, args: seq!["note"@, id@, note@] }),
        r.scope == scope,
        r.args@.len() == 3,
        r.args@[0]@ == "note"@,
        r.args@[1]@ == id@,
        r.args@[2]@ == note@,
{
    let r = call(scope, &["note", id, note]);
    assert(r@ =~= (CallModel { scope, args: seq!["note"@, id@, note@] }));
    r
}

/// Asks `bd` to add a comment to an issue.
pub fn add_comment(scope: Scope, id: &str, text: &str) -> (r: Call)
    ensures
        r@ == (CallModel { scope, args: seq!["comment"@, id@, text@] }),
        r.scope == scope,
        r.args@.len() == 3,
        r.args@[0]@ == "comment"@,
        r.args@[1]@ == id@,
        r.args@[2]@ == text@,
{
    let r = call(scope, &["comment", id, text]);
    assert(r@ =~= (CallModel { scope, args: seq!["comment"@, id@, text@] }));
    r
}

/// Answers an issue of the human queue: `bd` adds the text as a comment and
/// closes the issue.
pub fn human_respond(scope: Scope, id: &str, text: &str) -> (r: Call)
    ensures
        r@ == (CallModel { scope, args: seq!["human"@, "respond"@, id@, "-r"@, text@] }),
        r.scope == scope,
        r.args@.len() == 5,
        r.args@[0]@ == "human"@,
        r.args@[1]@ == "respond"@,
        r.args@[2]@ == id@,
        r.args@[3]@ == "-r"@,
        r.args@[4]@ == text@,
{
    let r = call(scope, &["human", "respond", id, "-r", text]);
    assert(r@ =~= (CallModel { scope, args: seq!["human"@, "respond"@, id@, "-r"@, text@] }));
    r
}

/// The answer for an item to verify: `pass`, or `fail: ` and the trimmed notes.
pub open spec fn answer_text(pass: bool, notes: Seq<char>) -> Seq<char> {
    if pass {
        "pass"@
    } else {
        "fail: "@ + text::trimmed(notes)
    }
}

/// The answer for an item to verify.
pub fn answer(pass: bool, notes: &str) -> (r: String)
    ensures
        r@ == answer_text(pass, notes@),
        pass ==> r@ == "pass"@,
        !pass ==> r@ == "fail: "@ + text::trimmed(notes@),
{
    if pass {
        "pass".to_owned()
    } else {
        let mut r = "fail: ".to_owned();
        r.append(text::trim(notes));
        r
    }
}

/// Law: a reader of the answer can tell the two verdicts apart, and gets the
/// trimmed notes back behind `fail: `.
pub proof fn law_answer_can_be_read_back(notes: Seq<char>, other: Seq<char>)
    ensures
        answer_text(true, notes) == "pass"@,
        answer_text(true, notes) != answer_text(false, other),
        answer_text(false, notes).take(6) == "fail: "@,
        answer_text(false, notes).skip(6) == text::trimmed(notes),
{
    reveal_strlit("pass");
    reveal_strlit("fail: ");
    assert("pass"@[0] == 'p');
    assert("fail: "@[0] == 'f');
    assert(answer_text(false, other)[0] == 'f');
    assert(answer_text(false, notes).take(6) =~= "fail: "@);
    assert(answer_text(false, notes).skip(6) =~= text::trimmed(notes));
}

// ---------------------------------------------------------------- forms

/// An option with its value; nothing at all for an empty value.
pub open spec fn option(flag: Seq<char>, value: Seq<char>) -> Seq<Seq<char>> {
    if value.len() == 0 {
        seq![]
    } else {
        seq![flag, value]
    }
}

/// The description of a new issue: its title where the form has none.
pub open spec fn description_of(nb: NewBeadModel) -> Seq<char> {
    if nb.description.len() == 0 {
        nb.title
    } else {
        nb.description
    }
}

/// The arguments that create an issue.
pub open spec fn create_args(nb: NewBeadModel) -> Seq<Seq<char>> {
    seq![
        "create"@,
        nb.title,
        "-t"@,
        nb.issue_type,
        "-p"@,
        text::decimal(nb.priority),
        "--description"@,
        description_of(nb),
        "--silent"@,
    ] + option("-a"@, nb.assignee) + option("--parent"@, nb.parent) + option("-l"@, nb.labels)
}

/// The arguments that change the issue `id`.
pub open spec fn update_args(id: Seq<char>, nb: NewBeadModel) -> Seq<Seq<char>> {
    seq![
        "update"@,
        id,
        "--title"@,
        nb.title,
        "-t"@,
        nb.issue_type,
        "-p"@,
        text::decimal(nb.priority),
    ] + option("--description"@, nb.description) + option("-a"@, nb.assignee) + option(
        "--parent"@,
        nb.parent,
    ) + option("--set-labels"@, nb.labels)
}

/// Whether `args` holds the fields that are not empty and nothing else: in the
/// order of the fields, each as its option with its value behind it, and no
/// field twice.
pub open spec fn filled_options(args: Seq<Seq<char>>, fields: Seq<(Seq<char>, Seq<char>)>) -> bool
    decreases fields.len(),
{
    if fields.len() == 0 {
        args.len() == 0
    } else if fields[0].1.len() == 0 {
        filled_options(args, fields.drop_first())
    } else {
        &&& args.len() >= 2
        &&& args[0] == fields[0].0
        &&& args[1] == fields[0].1
        &&& filled_options(args.skip(2), fields.drop_first())
    }
}

proof fn lemma_option_fills(
    flag: Seq<char>,
    value: Seq<char>,
    rest: Seq<Seq<char>>,
    fields: Seq<(Seq<char>, Seq<char>)>,
)
    requires
        filled_options(rest, fields),
    ensures
        filled_options(option(flag, value) + rest, seq![(flag, value)] + fields),
{
    let all = seq![(flag, value)] + fields;
    assert(all.drop_first() =~= fields);
    if value.len() == 0 {
        assert(option(flag, value) + rest =~= rest);
    } else {
        assert((option(flag, value) + rest).skip(2) =~= rest);
    }
}

proof fn lemma_three_options(
    f: Seq<char>,
    x: Seq<char>,
    g: Seq<char>,
    y: Seq<char>,
    h: Seq<char>,
    z: Seq<char>,
)
    ensures
        filled_options(option(f, x) + option(g, y) + option(h, z), seq![(f, x), (g, y), (h, z)]),
{
    let none: Seq<Seq<char>> = seq![];
    let nothing: Seq<(Seq<char>, Seq<char>)> = seq![];
    lemma_option_fills(h, z, none, nothing);
    assert(option(h, z) + none =~= option(h, z));
    assert(seq![(h, z)] + nothing =~= seq![(h, z)]);
    lemma_option_fills(g, y, option(h, z), seq![(h, z)]);
    assert(seq![(g, y)] + seq![(h, z)] =~= seq![(g, y), (h, z)]);
    lemma_option_fills(f, x, option(g, y) + option(h, z), seq![(g, y), (h, z)]);
    assert(seq![(f, x)] + seq![(g, y), (h, z)] =~= seq![(f, x), (g, y), (h, z)]);
    assert(option(f, x) + (option(g, y) + option(h, z)) =~= option(f, x) + option(g, y) + option(
        h,
        z,
    ));
}

proof fn lemma_four_options(
    e: Seq<char>,
    w: Seq<char>,
    f: Seq<char>,
    x: Seq<char>,
    g: Seq<char>,
    y: Seq<char>,
    h: Seq<char>,
    z: Seq<char>,
)
    ensures
        filled_options(
            option(e, w) + option(f, x) + option(g, y) + option(h, z),
            seq![(e, w), (f, x), (g, y), (h, z)],
        ),
{
    let rest = option(f, x) + option(g, y) + option(h, z);
    lemma_three_options(f, x, g, y, h, z);
    lemma_option_fills(e, w, rest, seq![(f, x), (g, y), (h, z)]);
    assert(seq![(e, w)] + seq![(f, x), (g, y), (h, z)] =~= seq![(e, w), (f, x), (g, y), (h, z)]);
    assert(option(e, w) + rest =~= option(e, w) + option(f, x) + option(g, y) + option(h, z));
}

fn push_option(args: &mut Vec<String>, flag: &str, value: &str)
    ensures
        text::texts(final(args)@) == text::texts(old(args)@) + option(flag@, value@),
{
    let ghost before = args@;
    if !value.is_empty() {
        args.push(flag.to_owned());
        args.push(value.to_owned());
    }
    assert(text::texts(args@) =~= text::texts(before) + option(flag@, value@));
}

/// Asks `bd` to create an issue from a form.
pub fn create(scope: Scope, nb: &NewBead) -> (r: Call)
    ensures
        r@ == (CallModel { scope, args: create_args(nb@) }),
        r.scope == scope,
        r.args@.len() >= 9,
        r.args@[0]@ == "create"@,
        r.args@[1]@ == nb.title@,
        r.args@[2]@ == "-t"@,
        r.args@[3]@ == nb.issue_type@,
        r.args@[4]@ == "-p"@,
        r.args@[5]@ == text::decimal(nb.priority as nat),
        r.args@[6]@ == "--description"@,
        nb.description@.len() > 0 ==> r.args@[7]@ == nb.description@,
        nb.description@.len() == 0 ==> r.args@[7]@ == nb.title@,
        r.args@[8]@ == "--silent"@,
        filled_options(
            text::texts(r.args@).skip(9),
            seq![("-a"@, nb.assignee@), ("--parent"@, nb.parent@), ("-l"@, nb.labels@)],
        ),
{
    let p = text::write_decimal(nb.priority as u64);
    let desc = if nb.description.is_empty() {
        nb.title
    } else {
        nb.description
    };
    let mut r = call(
        scope,
        &[
            "create",
            nb.title,
            "-t",
            nb.issue_type,
            "-p",
            p.as_str(),
            "--description",
            desc,
            "--silent",
        ],
    );
    proof {
        assert(r@.args =~= seq![
            "create"@,
            nb@.title,
            "-t"@,
            nb@.issue_type,
            "-p"@,
            text::decimal(nb@.priority),
            "--description"@,
            description_of(nb@),
            "--silent"@,
        ]);
    }
    push_option(&mut r.args, "-a", nb.assignee);
    push_option(&mut r.args, "--parent", nb.parent);
    push_option(&mut r.args, "-l", nb.labels);
    proof {
        let texts = text::texts(r.args@);
        assert(forall|i: int| 0 <= i < r.args@.len() ==> texts[i] == #[trigger] r.args@[i]@);
        assert(texts.skip(9) =~= option("-a"@, nb.assignee@) + option("--parent"@, nb.parent@)
            + option("-l"@, nb.labels@));
        lemma_three_options("-a"@, nb.assignee@, "--parent"@, nb.parent@, "-l"@, nb.labels@);
    }
    r
}

/// Asks `bd` to change the issue `id` as an edited form says. A field that is
/// empty in the form is left as it is.
pub fn update_bead(scope: Scope, id: &str, nb: &NewBead) -> (r: Call)
    ensures
        r@ == (CallModel { scope, args: update_args(id@, nb@) }),
        r.scope == scope,
        r.args@.len() >= 8,
        r.args@[0]@ == "update"@,
        r.args@[1]@ == id@,
        r.args@[2]@ == "--title"@,
        r.args@[3]@ == nb.title@,
        r.args@[4]@ == "-t"@,
        r.args@[5]@ == nb.issue_type@,
        r.args@[6]@ == "-p"@,
        r.args@[7]@ == text::decimal(nb.priority as nat),
        filled_options(
            text::texts(r.args@).skip(8),
            seq![
                ("--description"@, nb.description@),
                ("-a"@, nb.assignee@),
                ("--parent"@, nb.parent@),
                ("--set-labels"@, nb.labels@),
            ],
        ),
{
    let p = text::write_decimal(nb.priority as u64);
    let mut r = call(
        scope,
        &["update", id, "--title", nb.title, "-t", nb.issue_type, "-p", p.as_str()],
    );
    proof {
        assert(r@.args =~= seq![
            "update"@,
            id@,
            "--title"@,
            nb@.title,
            "-t"@,
            nb@.issue_type,
            "-p"@,
            text::decimal(nb@.priority),
        ]);
    }
    push_option(&mut r.args, "--description", nb.description);
    push_option(&mut r.args, "-a", nb.assignee);
    push_option(&mut r.args, "--parent", nb.parent);
    push_option(&mut r.args, "--set-labels", nb.labels);
    proof {
        let texts = text::texts(r.args@);
        assert(forall|i: int| 0 <= i < r.args@.len() ==> texts[i] == #[trigger] r.args@[i]@);
        assert(texts.skip(8) =~= option("--description"@, nb.description@) + option(
            "-a"@,
            nb.assignee@,
        ) + option("--parent"@, nb.parent@) + option("--set-labels"@, nb.labels@));
        lemma_four_options(
            "--description"@,
            nb.description@,
            "-a"@,
            nb.assignee@,
            "--parent"@,
            nb.parent@,
            "--set-labels"@,
            nb.labels@,
        );
    }
    r
}

/// Law: an untouched field never wipes data. Behind the type and the priority
/// an update writes only description, assignee, parent and labels, each only
/// with a text that is not empty.
pub proof fn law_update_wipes_nothing(id: Seq<char>, nb: NewBeadModel, k: int)
    requires
        4 <= k,
        2 * k < update_args(id, nb).len(),
    ensures
        2 * k + 1 < update_args(id, nb).len(),
        update_args(id, nb)[2 * k + 1].len() > 0,
        ({
            let flag = update_args(id, nb)[2 * k];
            let value = update_args(id, nb)[2 * k + 1];
            ||| flag == "--description"@ && value == nb.description
            ||| flag == "-a"@ && value == nb.assignee
            ||| flag == "--parent"@ && value == nb.parent
            ||| flag == "--set-labels"@ && value == nb.labels
        }),
{
}

/// Law: an update leaves the status alone: none of its options sets one.
pub proof fn law_update_leaves_status_alone(id: Seq<char>, nb: NewBeadModel, k: int)
    requires
        1 <= k,
        2 * k < update_args(id, nb).len(),
    ensures
        update_args(id, nb)[2 * k] != "-s"@,
        update_args(id, nb)[2 * k] != "--claim"@,
{
    reveal_strlit("-s");
    reveal_strlit("--claim");
    reveal_strlit("--title");
    reveal_strlit("-t");
    reveal_strlit("-p");
    reveal_strlit("--description");
    reveal_strlit("-a");
    reveal_strlit("--parent");
    reveal_strlit("--set-labels");
    assert("-s"@[1] == 's');
    assert("--claim"@[2] == 'c');
    assert("--title"@[2] == 't' && "--title"@[1] == '-');
    assert("-t"@[1] == 't' && "-t"@.len() == 2);
    assert("-p"@[1] == 'p' && "-p"@.len() == 2);
    assert("--description"@[2] == 'd' && "--description"@[1] == '-');
    assert("-a"@[1] == 'a' && "-a"@.len() == 2);
    assert("--parent"@[2] == 'p' && "--parent"@[1] == '-');
    assert("--set-labels"@[2] == 's' && "--set-labels"@[1] == '-');
    assert("--claim"@.len() == 7);
    if k >= 4 {
        law_update_wipes_nothing(id, nb, k);
    }
}

/// Law: a new issue always gets a description: that of the form, or its title,
/// and so none only where the form has neither.
pub proof fn law_created_with_description(nb: NewBeadModel)
    ensures
        create_args(nb)[6] == "--description"@,
        nb.description.len() > 0 ==> create_args(nb)[7] == nb.description,
        nb.description.len() == 0 ==> create_args(nb)[7] == nb.title,
{
}

/// Law: what the texts of a form hold never becomes an option, and never takes
/// one away: two forms that leave the same fields empty give as many
/// arguments, with the same options at the same places.
pub proof fn law_texts_never_become_options(
    id: Seq<char>,
    a: NewBeadModel,
    other_id: Seq<char>,
    b: NewBeadModel,
)
    requires
        a.description.len() == 0 <==> b.description.len() == 0,
        a.assignee.len() == 0 <==> b.assignee.len() == 0,
        a.parent.len() == 0 <==> b.parent.len() == 0,
        a.labels.len() == 0 <==> b.labels.len() == 0,
    ensures
        update_args(id, a).len() == update_args(other_id, b).len(),
        forall|i: int|
            0 <= i < update_args(id, a).len() && i % 2 == 0 ==> (#[trigger] update_args(id, a)[i])
                == update_args(other_id, b)[i],
        create_args(a).len() == create_args(b).len(),
        forall|i: int|
            0 <= i < create_args(a).len() && (if i < 9 {
                i % 2 == 0
            } else {
                i % 2 == 1
            }) ==> (#[trigger] create_args(a)[i]) == create_args(b)[i],
{
}

// ---------------------------------------------------------------- running

/// How the program is to be started: its arguments, and the variables to set
/// in its environment.
#[derive(Debug)]
pub struct Invocation {
    pub args: Vec<String>,
    pub env: Vec<(String, String)>,
}

/// The names and values of a list of variables.
pub open spec fn variables(env: Seq<(String, String)>) -> Seq<(Seq<char>, Seq<char>)> {
    env.map_values(|v: (String, String)| (v.0@, v.1@))
}

/// The arguments of a call: those of the request, behind `--global` where it
/// is about every repository.
pub open spec fn full_args(c: CallModel) -> Seq<Seq<char>> {
    match c.scope {
        Scope::Repo => c.args,
        Scope::Global => seq!["--global"@] + c.args,
    }
}

/// The variables that a call sets. Homebrew's directories come first on the
/// search path, where there is one, and a global call opts into the shared
/// server that it needs.
pub open spec fn full_env(c: CallModel, path: Option<Seq<char>>) -> Seq<(Seq<char>, Seq<char>)> {
    (match path {
        Some(path) => seq![("PATH"@, "/opt/homebrew/bin:/usr/local/bin:"@ + path)],
        None => seq![],
    }) + (match c.scope {
        Scope::Repo => seq![],
        Scope::Global => seq![("BEADS_DOLT_SHARED_SERVER"@, "1"@)],
    })
}

/// How to run a call, given the search path of the board's own environment.
pub fn run(call: &Call, path: Option<String>) -> (r: Invocation)
    ensures
        text::texts(r.args@) == full_args(call@),
        variables(r.env@) == full_env(call@, json::text_of(path)),
        call.scope == Scope::Repo ==> r.args@.len() == call.args@.len() && forall|i: int|
            0 <= i < call.args@.len() ==> (#[trigger] r.args@[i])@ == call.args@[i]@,
        call.scope == Scope::Global ==> r.args@.len() == call.args@.len() + 1 && r.args@[0]@
            == "--global"@ && forall|i: int|
            0 <= i < call.args@.len() ==> r.args@[i + 1]@ == (#[trigger] call.args@[i])@,
        r.env@.len() == (if path is Some {
            1int
        } else {
            0
        }) + (if call.scope == Scope::Global {
            1int
        } else {
            0
        }),
        path is Some ==> r.env@[0].0@ == "PATH"@ && r.env@[0].1@
            == "/opt/homebrew/bin:/usr/local/bin:"@ + path->0@,
        call.scope == Scope::Global ==> r.env@.last().0@ == "BEADS_DOLT_SHARED_SERVER"@
            && r.env@.last().1@ == "1"@,
{
    let mut env: Vec<(String, String)> = Vec::new();
    if let Some(path) = path {
        let mut value = "/opt/homebrew/bin:/usr/local/bin:".to_owned();
        value.append(path.as_str());
        env.push(("PATH".to_owned(), value));
    }
    let mut args: Vec<String> = Vec::new();
    match call.scope {
        Scope::Repo => {},
        Scope::Global => {
            args.push("--global".to_owned());
            env.push(("BEADS_DOLT_SHARED_SERVER".to_owned(), "1".to_owned()));
        },
    }
    assert(variables(env@) =~= full_env(call@, json::text_of(path)));
    let ghost first = text::texts(args@);
    let ghost all = text::texts(call.args@);
    let n: usize = call.args.len();
    let mut i: usize = 0;
    assert(first + all.take(0) =~= first);
    while i < n
        invariant
            n == call.args@.len(),
            all == text::texts(call.args@),
            i <= n,
            text::texts(args@) == first + all.take(i as int),
        decreases n - i,
    {
        let ghost before = args@;
        args.push(call.args[i].clone());
        proof {
            assert(text::texts(args@) =~= text::texts(before).push(all[i as int]));
            assert(first + all.take(i + 1) =~= (first + all.take(i as int)).push(all[i as int]));
        }
        i = i + 1;
    }
    assert(all.take(n as int) =~= all);
    assert(first + all =~= full_args(call@));
    proof {
        let texts = text::texts(args@);
        assert(texts.len() == args@.len());
        assert(forall|i: int| 0 <= i < args@.len() ==> texts[i] == #[trigger] args@[i]@);
        assert(forall|i: int| 0 <= i < all.len() ==> all[i] == (#[trigger] call.args@[i])@);
        assert forall|i: int| 0 <= i < call.args@.len() implies args@[first.len() + i]@ == (
        #[trigger] call.args@[i])@ by {
            assert(texts[first.len() + i] == all[i]);
        }
    }
    Invocation { args, env }
}

/// How a run ended.
pub enum Ended {
    /// The program could not be started, for this cause.
    NotStarted(String),
    /// The program ran and wrote this.
    Exited { success: bool, stdout: Vec<u8>, stderr: Vec<u8> },
}

/// The error of a run that failed, given what the program said about it.
pub fn failure(call: &Call, stderr: &str) -> (r: BdError)
    ensures
        r matches BdError::Failed { args, stderr: why } && args@ == text::joined(call@.args, " "@)
            && why@ == text::trimmed(stderr@),
        error::message_of(r) == "bd "@ + text::joined(call@.args, " "@) + ": "@ + text::trimmed(
            stderr@,
        ),
{
    BdError::Failed {
        args: text::join(call.args.as_slice(), " "),
        stderr: text::trim(stderr).to_owned(),
    }
}

/// What a run gives: the output of the program, as far as it is text. An error
/// names the arguments and carries what the program said about it.
pub fn run_outcome(call: &Call, ended: Ended) -> (r: Result<String, BdError>)
    ensures
        match ended {
            Ended::NotStarted(cause) => r matches Err(BdError::Spawn { args, cause: why }) && args@
                == text::joined(call@.args, " "@) && why == cause,
            Ended::Exited { success, stdout, stderr } => if success {
                r matches Ok(out) && out@ == text::lossy(stdout@) && (vstd::utf8::valid_utf8(stdout@)
                    ==> out@ == vstd::utf8::decode_utf8(stdout@))
            } else {
                r matches Err(BdError::Failed { args, stderr: why }) && args@ == text::joined(
                    call@.args,
                    " "@,
                ) && why@ == text::trimmed(text::lossy(stderr@)) && (vstd::utf8::valid_utf8(stderr@)
                    ==> why@ == text::trimmed(vstd::utf8::decode_utf8(stderr@)))
            },
        },
{
    match ended {
        Ended::NotStarted(cause) => Err(
            BdError::Spawn { args: text::join(call.args.as_slice(), " "), cause },
        ),
        Ended::Exited { success, stdout, stderr } => {
            if success {
                Ok(text::from_utf8_lossy(stdout.as_slice()))
            } else {
                let err = text::from_utf8_lossy(stderr.as_slice());
                Err(failure(call, err.as_str()))
            }
        },
    }
}

/// Law: `--global` is given for global calls and for no others, and always
/// comes first; the arguments of the request follow as they are.
pub proof fn law_scope_decides_global(c: CallModel)
    ensures
        c.scope == Scope::Global ==> full_args(c)[0] == "--global"@ && full_args(c).skip(1)
            == c.args,
        c.scope == Scope::Repo ==> full_args(c) == c.args,
{
    if c.scope == Scope::Global {
        assert(full_args(c).skip(1) =~= c.args);
    }
}

// ---------------------------------------------------------------- replies

/// Whether `r` is what a reply with this text says: no issues where it is
/// blank, else what `decode` made of the trimmed text.
pub open spec fn reads_as<D: Fn(&str) -> Result<Vec<Bead>, String>>(
    decode: D,
    reply: Seq<char>,
    r: Result<Vec<Bead>, BdError>,
) -> bool {
    if text::blank(reply) {
        r is Ok && r->Ok_0@.len() == 0
    } else {
        exists|doc: &str, decoded: Result<Vec<Bead>, String>|
            {
                &&& doc@ == text::trimmed(reply)
                &&& #[trigger] call_ensures(decode, (doc,), decoded)
                &&& r == decoded_list(decoded)
            }
    }
}

/// What a decoded list of issues stands for.
pub open spec fn decoded_list(decoded: Result<Vec<Bead>, String>) -> Result<Vec<Bead>, BdError> {
    match decoded {
        Ok(beads) => Ok(beads),
        Err(cause) => Err(BdError::List { cause }),
    }
}

/// Reads the list of issues in a reply. `decode` turns a JSON text that is not
/// blank into issues, or says why it cannot.
pub fn parse_list<D: Fn(&str) -> Result<Vec<Bead>, String>>(s: &str, decode: D) -> (r: Result<
    Vec<Bead>,
    BdError,
>)
    requires
        forall|doc: &str| call_requires(decode, (doc,)),
    ensures
        reads_as(decode, s@, r),
{
    let doc = text::trim(s);
    proof {
        text::lemma_trimmed_is_subrange(s@);
    }
    if doc.is_empty() {
        return Ok(Vec::new());
    }
    match decode(doc) {
        Ok(beads) => Ok(beads),
        Err(cause) => Err(BdError::List { cause }),
    }
}

/// Law: white space around a reply makes no difference to what it reads as.
pub proof fn law_white_space_around_a_reply<D: Fn(&str) -> Result<Vec<Bead>, String>>(
    decode: D,
    a: Seq<char>,
    s: Seq<char>,
    b: Seq<char>,
    r: Result<Vec<Bead>, BdError>,
)
    requires
        text::blank(a),
        text::blank(b),
    ensures
        text::trimmed(a + s + b) == text::trimmed(s),
        reads_as(decode, a + s + b, r) == reads_as(decode, s, r),
{
    text::lemma_trimmed_within_blank(a, s, b);
    text::lemma_trimmed_is_subrange(s);
    text::lemma_trimmed_is_subrange(a + s + b);
}

/// Whether `decode` gives one result for the text `doc`, however often it is
/// asked.
pub open spec fn decodes_one_way<D: Fn(&str) -> Result<Vec<Bead>, String>>(
    decode: D,
    doc: Seq<char>,
) -> bool {
    forall|c: &str, d: &str, x: Result<Vec<Bead>, String>, y: Result<Vec<Bead>, String>|
        c@ == doc && d@ == doc && #[trigger] call_ensures(decode, (c,), x)
            && #[trigger] call_ensures(decode, (d,), y) ==> match (x, y) {
            (Ok(x), Ok(y)) => x@ == y@,
            (Err(x), Err(y)) => x@ == y@,
            _ => false,
        }
}

/// Law: two readings of a reply, with and without white space around it, give
/// the same issues, or both fail with the same cause. The decoder has to give
/// one result for the text between the white space, where there is one.
pub proof fn law_padded_reply_reads_the_same<D: Fn(&str) -> Result<Vec<Bead>, String>>(
    decode: D,
    a: Seq<char>,
    s: Seq<char>,
    b: Seq<char>,
    padded: Result<Vec<Bead>, BdError>,
    plain: Result<Vec<Bead>, BdError>,
)
    requires
        text::blank(s) || decodes_one_way(decode, text::trimmed(s)),
        text::blank(a),
        text::blank(b),
        reads_as(decode, a + s + b, padded),
        reads_as(decode, s, plain),
    ensures
        match (padded, plain) {
            (Ok(x), Ok(y)) => x@ == y@,
            (Err(BdError::List { cause: x }), Err(BdError::List { cause: y })) => x@ == y@,
            _ => false,
        },
{
    law_white_space_around_a_reply(decode, a, s, b, padded);
    if text::blank(s) {
        assert(padded->Ok_0@ =~= plain->Ok_0@);
    }
}

/// The call that lists the board. Closed issues come from one list of all
/// issues rather than from a second list, as a call takes long.
pub open spec fn load_call(scope: Scope, include_closed: bool) -> CallModel {
    CallModel {
        scope,
        args: if include_closed {
            seq!["list"@, "--all"@, "--json"@]
        } else {
            seq!["list"@, "--json"@]
        },
    }
}

/// Asks `bd` for the whole board; for closed issues too, if asked to.
pub fn load(scope: Scope, include_closed: bool) -> (r: Call)
    ensures
        r@ == load_call(scope, include_closed),
        r.scope == scope,
        include_closed ==> r.args@.len() == 3 && r.args@[0]@ == "list"@ && r.args@[1]@ == "--all"@
            && r.args@[2]@ == "--json"@,
        !include_closed ==> r.args@.len() == 2 && r.args@[0]@ == "list"@ && r.args@[1]@
            == "--json"@,
{
    if include_closed {
        let r = call(scope, &["list", "--all", "--json"]);
        assert(r@.args =~= seq!["list"@, "--all"@, "--json"@]);
        r
    } else {
        let r = call(scope, &["list", "--json"]);
        assert(r@.args =~= seq!["list"@, "--json"@]);
        r
    }
}

/// Whether the status of an issue is `pinned`.
pub open spec fn pinned(bead: Bead) -> bool {
    bead.status@ == "pinned"@
}

/// The issues to show of those that were listed. With the closed issues come
/// the pinned ones, which the list without closed issues does not have: they
/// are left out.
pub open spec fn shown_of(include_closed: bool, beads: Seq<Bead>) -> Seq<Bead> {
    if include_closed {
        beads.filter(|b: Bead| !pinned(b))
    } else {
        beads
    }
}

/// The issues to show of those that were listed.
pub fn board(include_closed: bool, beads: Vec<Bead>) -> (r: Vec<Bead>)
    ensures
        r@ == shown_of(include_closed, beads@),
        !include_closed ==> r == beads,
        include_closed ==> r@ == beads@.filter(|b: Bead| b.status@ != "pinned"@),
{
    if !include_closed {
        return beads;
    }
    let mut r: Vec<Bead> = Vec::new();
    let ghost keep = |b: Bead| !pinned(b);
    let ghost all = beads@;
    proof {
        reveal(Seq::filter);
    }
    for bead in it: beads
        invariant
            it.seq() == all,
            keep == (|b: Bead| !pinned(b)),
            r@ == all.take(it.index() as int).filter(keep),
    {
        proof {
            reveal(Seq::filter);
            assert(all.take(it.index() + 1).drop_last() =~= all.take(it.index() as int));
        }
        if !text::same(bead.status.as_str(), "pinned") {
            r.push(bead);
        }
    }
    assert(all.take(all.len() as int) =~= all);
    assert(keep =~= (|b: Bead| b.status@ != "pinned"@));
    r
}

/// Whether `r` is the board that the reply to [`load`] gives: the error of the
/// run, the error of the list, or the issues to show.
pub open spec fn loads_as<D: Fn(&str) -> Result<Vec<Bead>, String>>(
    decode: D,
    include_closed: bool,
    reply: Result<String, BdError>,
    r: Result<Vec<Bead>, BdError>,
) -> bool {
    match reply {
        Err(e) => r == Err::<Vec<Bead>, BdError>(e),
        Ok(out) => exists|listed: Result<Vec<Bead>, BdError>|
            {
                &&& #[trigger] reads_as(decode, out@, listed)
                &&& match listed {
                    Err(e) => r == Err::<Vec<Bead>, BdError>(e),
                    Ok(beads) => r is Ok && r->Ok_0@ == shown_of(include_closed, beads@),
                }
            },
    }
}

/// The issues of the board, read from the reply to [`load`].
pub fn load_reply<D: Fn(&str) -> Result<Vec<Bead>, String>>(
    include_closed: bool,
    reply: Result<String, BdError>,
    decode: D,
) -> (r: Result<Vec<Bead>, BdError>)
    requires
        forall|doc: &str| call_requires(decode, (doc,)),
    ensures
        loads_as(decode, include_closed, reply, r),
        !include_closed ==> match reply {
            Err(e) => r == Err::<Vec<Bead>, BdError>(e),
            Ok(out) => reads_as(decode, out@, r),
        },
{
    let out = match reply {
        Ok(out) => out,
        Err(e) => {
            return Err(e);
        },
    };
    let listed = parse_list(out.as_str(), decode);
    assert(reads_as(decode, out@, listed));
    match listed {
        Ok(beads) => Ok(board(include_closed, beads)),
        Err(e) => Err(e),
    }
}

/// Whether the status of an issue is `closed`.
pub open spec fn closed(bead: Bead) -> bool {
    bead.status@ == "closed"@
}

/// Law: the board with closed issues is the board without them plus the closed
/// ones: pinned issues are on neither, every other issue stays, in its place.
pub proof fn law_closed_only_adds_closed(all: Seq<Bead>)
    ensures
        forall|b: Bead| #[trigger] shown_of(true, all).contains(b) <==> all.contains(b) && !pinned(b),
        shown_of(true, all).filter(|b: Bead| !closed(b)) == all.filter(
            |b: Bead| !pinned(b) && !closed(b),
        ),
    decreases all.len(),
{
    reveal(Seq::filter);
    let keep = |b: Bead| !pinned(b);
    let open = |b: Bead| !closed(b);
    let both = |b: Bead| !pinned(b) && !closed(b);
    if all.len() == 0 {
        assert(shown_of(true, all) =~= seq![]);
        assert(all.filter(both) =~= seq![]);
    } else {
        let last = all.last();
        let rest = all.drop_last();
        law_closed_only_adds_closed(rest);
        assert(all =~= rest.push(last));
        if keep(last) {
            assert(shown_of(true, all) == shown_of(true, rest).push(last));
            assert(shown_of(true, rest).push(last).drop_last() =~= shown_of(true, rest));
        }
        assert forall|b: Bead| #[trigger] shown_of(true, all).contains(b) <==> all.contains(b)
            && !pinned(b) by {
            lemma_push_contains(rest, last, b);
            lemma_push_contains(shown_of(true, rest), last, b);
            assert(shown_of(true, rest).contains(b) <==> rest.contains(b) && !pinned(b));
        }
    }
}

proof fn lemma_push_contains<T>(s: Seq<T>, last: T, x: T)
    ensures
        s.push(last).contains(x) <==> s.contains(x) || x == last,
{
    if s.contains(x) {
        let i = choose|i: int| 0 <= i < s.len() && s[i] == x;
        assert(s.push(last)[i] == x);
    }
    if x == last {
        assert(s.push(last)[s.len() as int] == x);
    }
}

/// The call that asks for one issue.
pub open spec fn show_call(scope: Scope, id: Seq<char>) -> CallModel {
    CallModel { scope, args: seq!["show"@, id, "--json"@] }
}

/// Asks `bd` for one issue with all there is to know about it.
pub fn show(scope: Scope, id: &str) -> (r: Call)
    ensures
        r@ == show_call(scope, id@),
        r.scope == scope,
        r.args@.len() == 3,
        r.args@[0]@ == "show"@,
        r.args@[1]@ == id@,
        r.args@[2]@ == "--json"@,
{
    let r = call(scope, &["show", id, "--json"]);
    assert(r@.args =~= seq!["show"@, id@, "--json"@]);
    r
}

/// The first issue of a list.
pub open spec fn first_of(beads: Seq<Bead>) -> Option<Bead> {
    if beads.len() == 0 {
        None
    } else {
        Some(beads[0])
    }
}

/// The first issue of a list.
pub fn first_bead(beads: Vec<Bead>) -> (r: Option<Bead>)
    ensures
        r == first_of(beads@),
        r is None <==> beads@.len() == 0,
        r matches Some(b) ==> b == beads@[0],
{
    let mut beads = beads;
    if beads.len() == 0 {
        None
    } else {
        Some(beads.swap_remove(0))
    }
}

/// Whether `r` is what the reply to [`show`] gives: the error of the run, the
/// error of the list, or the first issue, if there is one.
pub open spec fn shows_as<D: Fn(&str) -> Result<Vec<Bead>, String>>(
    decode: D,
    reply: Result<String, BdError>,
    r: Result<Option<Bead>, BdError>,
) -> bool {
    match reply {
        Err(e) => r == Err::<Option<Bead>, BdError>(e),
        Ok(out) => exists|listed: Result<Vec<Bead>, BdError>|
            {
                &&& #[trigger] reads_as(decode, out@, listed)
                &&& match listed {
                    Err(e) => r == Err::<Option<Bead>, BdError>(e),
                    Ok(beads) => r == Ok::<Option<Bead>, BdError>(first_of(beads@)),
                }
            },
    }
}

/// The issue in the reply to [`show`], if there is one.
pub fn show_reply<D: Fn(&str) -> Result<Vec<Bead>, String>>(
    reply: Result<String, BdError>,
    decode: D,
) -> (r: Result<Option<Bead>, BdError>)
    requires
        forall|doc: &str| call_requires(decode, (doc,)),
    ensures
        shows_as(decode, reply, r),
{
    let out = match reply {
        Ok(out) => out,
        Err(e) => {
            return Err(e);
        },
    };
    let listed = parse_list(out.as_str(), decode);
    assert(reads_as(decode, out@, listed));
    match listed {
        Ok(beads) => Ok(first_bead(beads)),
        Err(e) => Err(e),
    }
}

/// The reply to a request that only writes: what `bd` printed is of no
/// interest.
pub fn write_reply(reply: Result<String, BdError>) -> (r: Result<(), BdError>)
    ensures
        r == match reply {
            Ok(_) => Ok::<(), BdError>(()),
            Err(e) => Err(e),
        },
{
    match reply {
        Ok(_) => Ok(()),
        Err(e) => Err(e),
    }
}

/// A created issue: its id, and what is still to be asked of `bd`. A failure
/// of that is of no account.
#[derive(Debug)]
pub struct Created {
    pub id: String,
    pub follow_up: Option<Call>,
}

/// The model of an optional call.
pub open spec fn call_of(c: Option<Call>) -> Option<CallModel> {
    match c {
        Some(c) => Some(c@),
        None => None,
    }
}

/// The call that puts the issue `id` into the backlog.
pub open spec fn defer_call(scope: Scope, id: Seq<char>) -> CallModel {
    CallModel { scope, args: seq!["update"@, id, "-s"@, "deferred"@] }
}

/// The new issue, read from the reply to [`create`]: its id is what `bd`
/// printed, trimmed. An issue for the backlog is then put there, if it has an
/// id.
pub fn create_reply(scope: Scope, nb: &NewBead, reply: Result<String, BdError>) -> (r: Result<
    Created,
    BdError,
>)
    ensures
        match reply {
            Err(e) => r == Err::<Created, BdError>(e),
            Ok(out) => {
                &&& r is Ok
                &&& r->Ok_0.id@ == text::trimmed(out@)
                &&& call_of(r->Ok_0.follow_up) == if nb.deferred && !text::blank(out@) {
                    Some(defer_call(scope, text::trimmed(out@)))
                } else {
                    None
                }
                &&& r->Ok_0.follow_up is Some <==> nb.deferred && r->Ok_0.id@.len() > 0
                &&& r->Ok_0.follow_up matches Some(c) ==> {
                    &&& c.scope == scope
                    &&& c.args@.len() == 4
                    &&& c.args@[0]@ == "update"@
                    &&& c.args@[1]@ == r->Ok_0.id@
                    &&& c.args@[2]@ == "-s"@
                    &&& c.args@[3]@ == "deferred"@
                }
            },
        },
{
    match reply {
        Ok(out) => {
            let id = text::trim(out.as_str());
            proof {
                text::lemma_trimmed_is_subrange(out@);
            }
            let follow_up = if nb.deferred && !id.is_empty() {
                Some(set_status(scope, id, "deferred"))
            } else {
                None
            };
            Ok(Created { id: id.to_owned(), follow_up })
        },
        Err(e) => Err(e),
    }
}

/// What is still to be asked of `bd` after the reply to [`update_bead`]: to
/// put the issue into the backlog, where the form says so. A failure of that
/// is of no account.
pub fn update_reply(
    scope: Scope,
    id: &str,
    nb: &NewBead,
    reply: Result<String, BdError>,
) -> (r: Result<Option<Call>, BdError>)
    ensures
        match reply {
            Err(e) => r == Err::<Option<Call>, BdError>(e),
            Ok(_) => {
                &&& r is Ok
                &&& call_of(r->Ok_0) == if nb.deferred {
                    Some(defer_call(scope, id@))
                } else {
                    None
                }
                &&& r->Ok_0 is Some <==> nb.deferred
                &&& r->Ok_0 matches Some(c) ==> {
                    &&& c.scope == scope
                    &&& c.args@.len() == 4
                    &&& c.args@[0]@ == "update"@
                    &&& c.args@[1]@ == id@
                    &&& c.args@[2]@ == "-s"@
                    &&& c.args@[3]@ == "deferred"@
                }
            },
        },
{
    match reply {
        Ok(_) => {
            if nb.deferred {
                Ok(Some(set_status(scope, id, "deferred")))
            } else {
                Ok(None)
            }
        },
        Err(e) => Err(e),
    }
}

// ---------------------------------------------------------------- review

/// The call that asks for the repository's review command.
pub open spec fn review_call(scope: Scope) -> CallModel {
    CallModel {
        scope,
        args: seq!["config"@, "get"@, "custom.herdr-beads.review"@, "--json"@],
    }
}

/// Asks `bd` for the repository's review command.
pub fn review_command(scope: Scope) -> (r: Call)
    ensures
        r@ == review_call(scope),
        r.scope == scope,
        r.args@.len() == 4,
        r.args@[0]@ == "config"@,
        r.args@[1]@ == "get"@,
        r.args@[2]@ == "custom.herdr-beads.review"@,
        r.args@[3]@ == "--json"@,
{
    let r = call(scope, &["config", "get", "custom.herdr-beads.review", "--json"]);
    assert(r@.args =~= seq!["config"@, "get"@, "custom.herdr-beads.review"@, "--json"@]);
    r
}

/// The words of the review command in a document: those of its member
/// `value`, none where that is missing or no text.
pub open spec fn review_words(doc: Json) -> Seq<Seq<char>> {
    match doc.text_member("value"@) {
        Some(value) => text::words(value),
        None => seq![],
    }
}

/// The words of the review command in a document.
pub fn review_words_of(doc: &Value) -> (r: Vec<String>)
    ensures
        text::texts(r@) == review_words(json::held(*doc)),
        json::held(*doc).text_member("value"@) matches Some(value) ==> text::is_split(
            value,
            text::texts(r@),
        ),
        json::held(*doc).text_member("value"@) is None ==> r@.len() == 0,
{
    match json::at(doc, "value").as_str() {
        Some(value) => text::split_words(value),
        None => {
            let r: Vec<String> = Vec::new();
            assert(text::texts(r@) =~= seq![]);
            r
        },
    }
}

/// Whether `r` is what the reply to [`review_command`] gives: the error of the
/// run, the message of the parser, or the words of the command.
pub open spec fn reviews_as(
    reply: Result<String, BdError>,
    r: Result<Vec<String>, BdError>,
) -> bool {
    match reply {
        Err(e) => r == Err::<Vec<String>, BdError>(e),
        Ok(out) => match json::parsed_text(out@) {
            Ok(doc) => r is Ok && text::texts(r->Ok_0@) == review_words(doc),
            Err(message) => r matches Err(BdError::Document { cause }) && cause@ == message,
        },
    }
}

/// The review command as a vector of arguments, read from the reply to
/// [`review_command`]; empty where none is set.
pub fn review_reply(reply: Result<String, BdError>) -> (r: Result<Vec<String>, BdError>)
    ensures
        reviews_as(reply, r),
{
    match reply {
        Ok(out) => match json::parse_text(out.as_str()) {
            Ok(doc) => Ok(review_words_of(&doc)),
            Err(cause) => Err(BdError::Document { cause }),
        },
        Err(e) => Err(e),
    }
}

/// Law: every argument of a review command is a word without white space, and
/// there is none exactly where the command is not set or blank.
pub proof fn law_review_command_is_words(doc: Json)
    ensures
        forall|k: int|
            0 <= k < review_words(doc).len() ==> {
                &&& (#[trigger] review_words(doc)[k]).len() > 0
                &&& forall|i: int|
                    0 <= i < review_words(doc)[k].len() ==> !text::white_space(
                        #[trigger] review_words(doc)[k][i],
                    )
            },
        review_words(doc).len() == 0 <==> (doc.text_member("value"@) is None || text::blank(
            doc.text_member("value"@)->0,
        )),
{
    if let Some(value) = doc.text_member("value"@) {
        text::lemma_words_are_words(value);
    }
}

// ---------------------------------------------------------------- laws

/// Law: the model of a call is its scope and the text of each argument, in
/// order, and a list of variables is modelled one by one.
pub proof fn law_call_model(c: Call, env: Seq<(String, String)>)
    ensures
        c@.scope == c.scope,
        c@.args.len() == c.args@.len(),
        forall|i: int| 0 <= i < c.args@.len() ==> #[trigger] c@.args[i] == c.args@[i]@,
        call_of(Some(c)) == Some(c@),
        call_of(None) is None,
        variables(env).len() == env.len(),
        forall|i: int|
            0 <= i < env.len() ==> #[trigger] variables(env)[i] == (env[i].0@, env[i].1@),
{
}

/// Law: the arguments that create an issue hold the form's own values. The
/// title, the type, the priority and the description stand behind their
/// options; behind those stand the assignee, the parent and the labels, as far
/// as they are not empty, and nothing else.
pub proof fn law_create_carries_the_form(nb: NewBeadModel)
    ensures
        create_args(nb).len() == 9 + (if nb.assignee.len() > 0 {
            2int
        } else {
            0
        }) + (if nb.parent.len() > 0 {
            2int
        } else {
            0
        }) + (if nb.labels.len() > 0 {
            2int
        } else {
            0
        }),
        create_args(nb)[0] == "create"@ && create_args(nb)[1] == nb.title,
        create_args(nb)[2] == "-t"@ && create_args(nb)[3] == nb.issue_type,
        create_args(nb)[4] == "-p"@ && text::number_of(create_args(nb)[5]) == nb.priority,
        create_args(nb)[6] == "--description"@ && create_args(nb)[7] == if nb.description.len() > 0 {
            nb.description
        } else {
            nb.title
        },
        create_args(nb)[8] == "--silent"@,
        filled_options(
            create_args(nb).skip(9),
            seq![("-a"@, nb.assignee), ("--parent"@, nb.parent), ("-l"@, nb.labels)],
        ),
{
    text::law_decimal_reads_back(nb.priority);
    lemma_three_options("-a"@, nb.assignee, "--parent"@, nb.parent, "-l"@, nb.labels);
    assert(create_args(nb).skip(9) =~= option("-a"@, nb.assignee) + option("--parent"@, nb.parent)
        + option("-l"@, nb.labels));
}

/// Law: the arguments that change an issue hold its id and the form's own
/// values. The title, the type and the priority stand behind their options;
/// behind those stand the description, the assignee, the parent and the labels,
/// as far as they are not empty, and nothing else.
pub proof fn law_update_carries_the_form(id: Seq<char>, nb: NewBeadModel)
    ensures
        update_args(id, nb)[0] == "update"@ && update_args(id, nb)[1] == id,
        update_args(id, nb)[2] == "--title"@ && update_args(id, nb)[3] == nb.title,
        update_args(id, nb)[4] == "-t"@ && update_args(id, nb)[5] == nb.issue_type,
        update_args(id, nb)[6] == "-p"@ && text::number_of(update_args(id, nb)[7]) == nb.priority,
        filled_options(
            update_args(id, nb).skip(8),
            seq![
                ("--description"@, nb.description),
                ("-a"@, nb.assignee),
                ("--parent"@, nb.parent),
                ("--set-labels"@, nb.labels),
            ],
        ),
{
    text::law_decimal_reads_back(nb.priority);
    lemma_four_options(
        "--description"@,
        nb.description,
        "-a"@,
        nb.assignee,
        "--parent"@,
        nb.parent,
        "--set-labels"@,
        nb.labels,
    );
    assert(update_args(id, nb).skip(8) =~= option("--description"@, nb.description) + option(
        "-a"@,
        nb.assignee,
    ) + option("--parent"@, nb.parent) + option("--set-labels"@, nb.labels));
}

/// Law: forms that differ give different requests: the arguments of a new issue
/// tell title, type, priority and each field that is not empty apart.
pub proof fn law_create_tells_forms_apart(a: NewBeadModel, b: NewBeadModel)
    requires
        create_args(a) == create_args(b),
        a.assignee.len() == 0 <==> b.assignee.len() == 0,
        a.parent.len() == 0 <==> b.parent.len() == 0,
        a.labels.len() == 0 <==> b.labels.len() == 0,
    ensures
        a.title == b.title,
        a.issue_type == b.issue_type,
        a.priority == b.priority,
        a.description.len() > 0 && b.description.len() > 0 ==> a.description == b.description,
        a.assignee == b.assignee,
        a.parent == b.parent,
        a.labels == b.labels,
{
    law_create_carries_the_form(a);
    law_create_carries_the_form(b);
    let (s, t) = (create_args(a), create_args(b));
    assert(a.assignee.len() == 0 ==> a.assignee =~= b.assignee);
    assert(a.parent.len() == 0 ==> a.parent =~= b.parent);
    assert(a.labels.len() == 0 ==> a.labels =~= b.labels);
    let p: int = 9 + if a.assignee.len() > 0 {
        2int
    } else {
        0
    };
    let l: int = p + if a.parent.len() > 0 {
        2int
    } else {
        0
    };
    if a.assignee.len() > 0 {
        assert(s[10] == a.assignee && t[10] == b.assignee);
    }
    if a.parent.len() > 0 {
        assert(s[p + 1] == a.parent && t[p + 1] == b.parent);
    }
    if a.labels.len() > 0 {
        assert(s[l + 1] == a.labels && t[l + 1] == b.labels);
    }
}

/// Law: a call sets the search path where there is one, to Homebrew's two
/// directories and then the path as it was; a global call also sets the switch
/// of the shared server, and no call sets anything else.
pub proof fn law_environment_of_a_call(c: CallModel, path: Option<Seq<char>>)
    ensures
        full_env(c, path).len() == (if path is Some {
            1int
        } else {
            0
        }) + (if c.scope == Scope::Global {
            1int
        } else {
            0
        }),
        path is Some ==> full_env(c, path)[0] == (
            "PATH"@,
            "/opt/homebrew/bin:/usr/local/bin:"@ + path->0,
        ),
        c.scope == Scope::Global ==> full_env(c, path).last() == (
            "BEADS_DOLT_SHARED_SERVER"@,
            "1"@,
        ),
{
}

/// Law: reading asks for what was asked: the board with or without `--all`, the
/// one issue by its id, the one setting by its name, all in the given scope; and
/// deferring asks for nothing but the status of the one issue.
pub proof fn law_read_calls(scope: Scope, include_closed: bool, id: Seq<char>)
    ensures
        load_call(scope, include_closed).scope == scope,
        load_call(scope, include_closed).args.contains("--all"@) <==> include_closed,
        load_call(scope, include_closed).args.first() == "list"@,
        load_call(scope, include_closed).args.last() == "--json"@,
        load_call(scope, include_closed).args.len() == if include_closed {
            3int
        } else {
            2
        },
        show_call(scope, id).scope == scope,
        show_call(scope, id).args.len() == 3 && show_call(scope, id).args[0] == "show"@
            && show_call(scope, id).args[1] == id && show_call(scope, id).args[2] == "--json"@,
        review_call(scope).scope == scope,
        review_call(scope).args.len() == 4 && review_call(scope).args[0] == "config"@
            && review_call(scope).args[1] == "get"@ && review_call(scope).args[2]
            == "custom.herdr-beads.review"@ && review_call(scope).args[3] == "--json"@,
        defer_call(scope, id).scope == scope,
        defer_call(scope, id).args.len() == 4 && defer_call(scope, id).args[0] == "update"@
            && defer_call(scope, id).args[1] == id && defer_call(scope, id).args[2] == "-s"@
            && defer_call(scope, id).args[3] == "deferred"@,
{
    reveal_strlit("list");
    reveal_strlit("--all");
    reveal_strlit("--json");
    assert("list"@.len() == 4 && "--all"@.len() == 5 && "--json"@.len() == 6);
    if include_closed {
        assert(load_call(scope, include_closed).args[1] == "--all"@);
    }
}

/// Law: without closed issues the board is the list as it is. With them, one
/// more issue in the list is one more on the board, at its end, unless its
/// status is `pinned`; then the board stays as it is.
pub proof fn law_one_more_issue(beads: Seq<Bead>, b: Bead)
    ensures
        shown_of(false, beads) == beads,
        shown_of(true, seq![]) == Seq::<Bead>::empty(),
        b.status@ == "pinned"@ ==> shown_of(true, beads.push(b)) == shown_of(true, beads),
        b.status@ != "pinned"@ ==> shown_of(true, beads.push(b)) == shown_of(true, beads).push(b),
{
    reveal(Seq::filter);
    let none: Seq<Bead> = seq![];
    assert(shown_of(true, none) =~= none);
    assert(beads.push(b).drop_last() =~= beads);
}

/// Law: what a reply reads as is what the decoder made of it. A blank reply
/// lists nothing; else the decoder is asked about the trimmed reply, and the
/// list is the one that it gave, issue by issue, or fails for its cause.
pub proof fn law_list_is_what_was_decoded<D: Fn(&str) -> Result<Vec<Bead>, String>>(
    decode: D,
    reply: Seq<char>,
    r: Result<Vec<Bead>, BdError>,
)
    requires
        reads_as(decode, reply, r),
    ensures
        text::blank(reply) ==> r is Ok && r->Ok_0@.len() == 0,
        !text::blank(reply) ==> exists|doc: &str, decoded: Result<Vec<Bead>, String>|
            {
                &&& doc@ == text::trimmed(reply)
                &&& #[trigger] call_ensures(decode, (doc,), decoded)
                &&& decoded matches Ok(list) ==> r is Ok && r->Ok_0@ == list@
                &&& decoded matches Err(cause) ==> r == Err::<Vec<Bead>, BdError>(
                    BdError::List { cause },
                )
            },
{
}

/// Law: the board is what the decoder made of the reply: without closed issues
/// every issue that it gave, in order; with them all of those whose status is
/// not `pinned`. A failed run and a failed list stay what they are.
pub proof fn law_board_is_what_was_decoded<D: Fn(&str) -> Result<Vec<Bead>, String>>(
    decode: D,
    include_closed: bool,
    reply: Result<String, BdError>,
    r: Result<Vec<Bead>, BdError>,
)
    requires
        loads_as(decode, include_closed, reply, r),
    ensures
        reply matches Err(e) ==> r == Err::<Vec<Bead>, BdError>(e),
        reply matches Ok(out) ==> {
            &&& text::blank(out@) ==> r is Ok && r->Ok_0@.len() == 0
            &&& !text::blank(out@) ==> exists|doc: &str, decoded: Result<Vec<Bead>, String>|
                {
                    &&& doc@ == text::trimmed(out@)
                    &&& #[trigger] call_ensures(decode, (doc,), decoded)
                    &&& decoded matches Ok(list) ==> r is Ok && r->Ok_0@ == if include_closed {
                        list@.filter(|b: Bead| b.status@ != "pinned"@)
                    } else {
                        list@
                    }
                    &&& decoded matches Err(cause) ==> r == Err::<Vec<Bead>, BdError>(
                        BdError::List { cause },
                    )
                }
        },
{
    if let Ok(out) = reply {
        let listed = choose|listed: Result<Vec<Bead>, BdError>|
            {
                &&& #[trigger] reads_as(decode, out@, listed)
                &&& match listed {
                    Err(e) => r == Err::<Vec<Bead>, BdError>(e),
                    Ok(beads) => r is Ok && r->Ok_0@ == shown_of(include_closed, beads@),
                }
            };
        law_list_is_what_was_decoded(decode, out@, listed);
        reveal(Seq::filter);
        assert((|b: Bead| !pinned(b)) =~= (|b: Bead| b.status@ != "pinned"@));
        if text::blank(out@) {
            assert(r->Ok_0@ =~= seq![]);
        }
    }
}

/// Law: an issue that is shown is the first that the decoder gave, and none
/// where it gave none or the reply is blank. A failed run and a failed list
/// stay what they are.
pub proof fn law_shown_issue_is_the_first_decoded<D: Fn(&str) -> Result<Vec<Bead>, String>>(
    decode: D,
    reply: Result<String, BdError>,
    r: Result<Option<Bead>, BdError>,
)
    requires
        shows_as(decode, reply, r),
    ensures
        reply matches Err(e) ==> r == Err::<Option<Bead>, BdError>(e),
        reply matches Ok(out) ==> {
            &&& text::blank(out@) ==> r == Ok::<Option<Bead>, BdError>(None)
            &&& !text::blank(out@) ==> exists|doc: &str, decoded: Result<Vec<Bead>, String>|
                {
                    &&& doc@ == text::trimmed(out@)
                    &&& #[trigger] call_ensures(decode, (doc,), decoded)
                    &&& decoded matches Ok(list) ==> {
                        &&& list@.len() == 0 ==> r == Ok::<Option<Bead>, BdError>(None)
                        &&& list@.len() > 0 ==> r == Ok::<Option<Bead>, BdError>(Some(list@[0]))
                    }
                    &&& decoded matches Err(cause) ==> r == Err::<Option<Bead>, BdError>(
                        BdError::List { cause },
                    )
                }
        },
{
    if let Ok(out) = reply {
        let listed = choose|listed: Result<Vec<Bead>, BdError>|
            {
                &&& #[trigger] reads_as(decode, out@, listed)
                &&& match listed {
                    Err(e) => r == Err::<Option<Bead>, BdError>(e),
                    Ok(beads) => r == Ok::<Option<Bead>, BdError>(first_of(beads@)),
                }
            };
        law_list_is_what_was_decoded(decode, out@, listed);
    }
}

/// Law: the review command holds all of the text under `value`: its arguments
/// are the longest stretches of that text without white space, every one and in
/// order, and one behind the other they are its characters but the white space.
/// A document without such a text has no command.
pub proof fn law_review_command_is_the_whole_value(doc: Json, value: Seq<char>)
    ensures
        doc is Object && doc->Object_0.contains_key("value"@) && doc->Object_0["value"@]
            == Json::Text(value) ==> {
            &&& text::is_split(value, review_words(doc))
            &&& text::run_together(review_words(doc)) == value.filter(
                |c: char| !text::white_space(c),
            )
        },
        !(doc is Object) || !doc->Object_0.contains_key("value"@) || !(
        doc->Object_0["value"@] is Text) ==> review_words(doc).len() == 0,
{
    text::law_words_are_the_stretches(value);
    text::law_words_hold_every_character(value);
}

/// Law: the review command that a reply gives is that of the document, or the
/// parser's message; a failed run stays what it is.
pub proof fn law_review_reply(reply: Result<String, BdError>, r: Result<Vec<String>, BdError>)
    requires
        reviews_as(reply, r),
    ensures
        reply matches Err(e) ==> r == Err::<Vec<String>, BdError>(e),
        reply matches Ok(out) ==> match json::parsed_text(out@) {
            Err(message) => r is Err && r->Err_0 is Document && r->Err_0->Document_cause@
                == message,
            Ok(doc) => {
                let value = doc->Object_0["value"@];
                &&& r is Ok
                &&& doc is Object && doc->Object_0.contains_key("value"@) && value is Text
                    ==> text::is_split(value->Text_0, r->Ok_0@.map_values(|w: String| w@))
                &&& !(doc is Object && doc->Object_0.contains_key("value"@) && value is Text)
                    ==> r->Ok_0@.len() == 0
            },
        },
{
    if let Ok(out) = reply {
        if let Ok(doc) = json::parsed_text(out@) {
            let value = doc->Object_0["value"@];
            law_review_command_is_the_whole_value(doc, value->Text_0);
            assert(text::texts(r->Ok_0@) =~= r->Ok_0@.map_values(|w: String| w@));
            assert(text::texts(r->Ok_0@).len() == r->Ok_0@.len());
        }
    }
}

/// Law: `bd` is looked for in four places: Homebrew's own, the local one, the
/// system's and Homebrew's on Linux, in this order.
pub proof fn law_places()
    ensures
        places().len() == 4,
        places()[0] == "/opt/homebrew/bin/bd"@,
        places()[1] == "/usr/local/bin/bd"@,
        places()[2] == "/usr/bin/bd"@,
        places()[3] == "/home/linuxbrew/.linuxbrew/bin/bd"@,
{
}

} // verus!
