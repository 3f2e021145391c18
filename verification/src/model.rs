//! How the board is opened: docked or as a popup, for one repository or for
//! all of them.

use crate::text;
use vstd::prelude::*;

verus! {

/// Where the board is shown.
#[derive(Clone, Copy, Debug, PartialEq, Eq, Structural)]
pub enum Mode {
    /// Docked as a side panel.
    Dock,
    /// Floating as a popup.
    Popup,
}

/// Which issues the board shows.
#[derive(Clone, Copy, Debug, PartialEq, Eq, Structural)]
pub enum Scope {
    /// Those of the current repository.
    Repo,
    /// Those of every repository.
    Global,
}

/// The title of the board's pane, by which the launcher finds it.
pub open spec fn title_of(mode: Mode) -> Seq<char> {
    match mode {
        Mode::Dock => "herdr-beads-dock"@,
        Mode::Popup => "herdr-beads-board"@,
    }
}

/// The title of the board's pane.
pub fn pane_title(mode: Mode) -> (r: &'static str)
    ensures
        r@ == title_of(mode),
        mode == Mode::Dock ==> r@ == "herdr-beads-dock"@,
        mode == Mode::Popup ==> r@ == "herdr-beads-board"@,
{
    match mode {
        Mode::Dock => "herdr-beads-dock",
        Mode::Popup => "herdr-beads-board",
    }
}

/// The mode that the value of `--mode` stands for.
pub open spec fn mode_named(value: Seq<char>) -> Mode {
    if value == "dock"@ {
        Mode::Dock
    } else {
        Mode::Popup
    }
}

/// What the single argument `arg` makes of the choices so far. An argument
/// that means nothing changes nothing.
pub open spec fn with_argument(so_far: (Mode, Scope, bool), arg: Seq<char>) -> (Mode, Scope, bool) {
    if arg == "--dock"@ {
        (Mode::Dock, so_far.1, so_far.2)
    } else if arg == "--popup"@ || arg == "--board"@ {
        (Mode::Popup, so_far.1, so_far.2)
    } else if arg == "--global"@ {
        (so_far.0, Scope::Global, so_far.2)
    } else if arg == "--selftest"@ {
        (so_far.0, so_far.1, true)
    } else {
        so_far
    }
}

/// What the arguments make of the choices so far, from the first to the last.
/// `--mode` takes the argument behind it as its value; without one it means
/// nothing.
pub open spec fn with_arguments(so_far: (Mode, Scope, bool), args: Seq<Seq<char>>) -> (
    Mode,
    Scope,
    bool,
)
    decreases args.len(),
{
    if args.len() == 0 {
        so_far
    } else if args[0] == "--mode"@ && args.len() >= 2 {
        with_arguments((mode_named(args[1]), so_far.1, so_far.2), args.skip(2))
    } else {
        with_arguments(with_argument(so_far, args[0]), args.skip(1))
    }
}

/// The choices where no argument is given: a popup for the repository.
pub open spec fn default_choices() -> (Mode, Scope, bool) {
    (Mode::Popup, Scope::Repo, false)
}

/// Reads the arguments of the command line, the program's name left out: the
/// mode, the scope and whether to run the self test.
pub fn parse_args(args: &[String]) -> (r: (Mode, Scope, bool))
    ensures
        r == with_arguments(default_choices(), text::texts(args@)),
        are_choices(text::texts(args@), r),
{
    let mut mode = Mode::Popup;
    let mut scope = Scope::Repo;
    let mut selftest = false;
    let n: usize = args.len();
    let ghost all = text::texts(args@);
    let mut i: usize = 0;
    assert(all.skip(0) =~= all);
    while i < n
        invariant
            n == args@.len(),
            all == text::texts(args@),
            i <= n,
            with_arguments(default_choices(), all) == with_arguments(
                (mode, scope, selftest),
                all.skip(i as int),
            ),
        decreases n - i,
    {
        let arg = args[i].as_str();
        let ghost rest = all.skip(i as int);
        proof {
            assert(rest[0] == arg@);
            assert(rest.skip(1) =~= all.skip(i + 1));
            if i + 1 < n {
                assert(rest[1] == args@[i + 1]@);
                assert(rest.skip(2) =~= all.skip(i + 2));
            }
            lemma_arguments_differ();
        }
        if text::same(arg, "--mode") {
            if i + 1 < n {
                mode = if text::same(args[i + 1].as_str(), "dock") {
                    Mode::Dock
                } else {
                    Mode::Popup
                };
                i = i + 1;
            }
        } else if text::same(arg, "--dock") {
            mode = Mode::Dock;
        } else if text::same(arg, "--popup") || text::same(arg, "--board") {
            mode = Mode::Popup;
        } else if text::same(arg, "--global") {
            scope = Scope::Global;
        } else if text::same(arg, "--selftest") {
            selftest = true;
        }
        i = i + 1;
    }
    proof {
        assert(all.skip(n as int) =~= seq![]);
        law_choices(all);
    }
    (mode, scope, selftest)
}

proof fn lemma_arguments_differ()
    ensures
        "--mode"@ != "--dock"@,
        "--mode"@ != "--popup"@,
        "--mode"@ != "--board"@,
        "--mode"@ != "--global"@,
        "--mode"@ != "--selftest"@,
{
    reveal_strlit("--mode");
    reveal_strlit("--dock");
    reveal_strlit("--popup");
    reveal_strlit("--board");
    reveal_strlit("--global");
    reveal_strlit("--selftest");
    assert("--mode"@[2] == 'm');
    assert("--dock"@[2] == 'd');
    assert("--popup"@[2] == 'p');
    assert("--board"@[2] == 'b');
    assert("--global"@[2] == 'g');
    assert("--selftest"@[2] == 's');
}

/// Law: arguments that the board does not know change nothing.
pub proof fn law_unknown_arguments_are_ignored(so_far: (Mode, Scope, bool), args: Seq<Seq<char>>)
    requires
        forall|i: int|
            0 <= i < args.len() ==> {
                let a = #[trigger] args[i];
                &&& a != "--mode"@
                &&& a != "--dock"@
                &&& a != "--popup"@
                &&& a != "--board"@
                &&& a != "--global"@
                &&& a != "--selftest"@
            },
    ensures
        with_arguments(so_far, args) == so_far,
    decreases args.len(),
{
    if args.len() > 0 {
        let rest = args.skip(1);
        assert forall|i: int| 0 <= i < rest.len() implies {
            let a = #[trigger] rest[i];
            &&& a != "--mode"@
            &&& a != "--dock"@
            &&& a != "--popup"@
            &&& a != "--board"@
            &&& a != "--global"@
            &&& a != "--selftest"@
        } by {
            assert(rest[i] == args[i + 1]);
        }
        law_unknown_arguments_are_ignored(so_far, rest);
    }
}

/// Law: arguments are read from left to right, so the last one has the last
/// word, unless `--mode` stands before it and takes it as its value.
pub proof fn law_last_argument_has_the_last_word(
    so_far: (Mode, Scope, bool),
    args: Seq<Seq<char>>,
    last: Seq<char>,
)
    requires
        args.len() == 0 || args.last() != "--mode"@,
    ensures
        with_arguments(so_far, args.push(last)) == with_argument(
            with_arguments(so_far, args),
            last,
        ),
    decreases args.len(),
{
    let all = args.push(last);
    lemma_arguments_differ();
    if args.len() == 0 {
        reveal_with_fuel(with_arguments, 2);
    } else if args[0] == "--mode"@ {
        assert(args.len() >= 2);
        assert(all.skip(2) =~= args.skip(2).push(last));
        law_last_argument_has_the_last_word(
            (mode_named(args[1]), so_far.1, so_far.2),
            args.skip(2),
            last,
        );
    } else {
        assert(all.skip(1) =~= args.skip(1).push(last));
        law_last_argument_has_the_last_word(with_argument(so_far, args[0]), args.skip(1), last);
    }
}

/// Whether the argument at `i` is the value of a `--mode`: one stands before it
/// that is not itself a value.
pub open spec fn is_value(args: Seq<Seq<char>>, i: int) -> bool
    decreases i,
{
    0 < i && args[i - 1] == "--mode"@ && !is_value(args, i - 1)
}

/// Whether there is an argument at `i` that is no value, and it is `flag`.
pub open spec fn flag_at(args: Seq<Seq<char>>, i: int, flag: Seq<char>) -> bool {
    0 <= i < args.len() && !is_value(args, i) && args[i] == flag
}

/// Whether the argument at `i` asks for the mode `mode`: as a flag, or as the
/// value of a `--mode`, where anything but `dock` asks for the popup.
pub open spec fn asks_for(args: Seq<Seq<char>>, i: int, mode: Mode) -> bool {
    &&& 0 <= i < args.len()
    &&& match mode {
        Mode::Dock => if is_value(args, i) {
            args[i] == "dock"@
        } else {
            args[i] == "--dock"@
        },
        Mode::Popup => if is_value(args, i) {
            args[i] != "dock"@
        } else {
            args[i] == "--popup"@ || args[i] == "--board"@
        },
    }
}

/// Whether an argument asks for the dock and none behind it for the popup.
pub open spec fn ends_with_dock(args: Seq<Seq<char>>) -> bool {
    exists|i: int|
        #[trigger] asks_for(args, i, Mode::Dock) && forall|j: int|
            i < j ==> !#[trigger] asks_for(args, j, Mode::Popup)
}

/// Whether `r` is what the arguments choose: the dock where the last argument
/// that asks for a mode asks for it, every repository where `--global` is
/// given, the self test where `--selftest` is given.
pub open spec fn are_choices(args: Seq<Seq<char>>, r: (Mode, Scope, bool)) -> bool {
    let (mode, scope, selftest) = r;
    &&& mode == Mode::Dock <==> ends_with_dock(args)
    &&& scope == Scope::Global <==> exists|i: int| #[trigger] flag_at(args, i, "--global"@)
    &&& selftest <==> exists|i: int| #[trigger] flag_at(args, i, "--selftest"@)
}

proof fn lemma_values_behind(args: Seq<Seq<char>>, n: int, i: int)
    requires
        0 <= n <= args.len(),
        0 <= i <= args.len() - n,
        !is_value(args, n),
    ensures
        is_value(args.skip(n), i) == is_value(args, n + i),
    decreases i,
{
    if i > 0 {
        lemma_values_behind(args, n, i - 1);
        assert(args.skip(n)[i - 1] == args[n + i - 1]);
    }
}

proof fn lemma_flags_behind(args: Seq<Seq<char>>, n: int, flag: Seq<char>)
    requires
        0 <= n <= args.len(),
        !is_value(args, n),
    ensures
        (exists|i: int| #[trigger] flag_at(args, i, flag)) <==> (exists|i: int|
            i < n && #[trigger] flag_at(args, i, flag)) || (exists|i: int| #[trigger]
            flag_at(args.skip(n), i, flag)),
{
    let rest = args.skip(n);
    if exists|i: int| #[trigger] flag_at(args, i, flag) {
        let i = choose|i: int| #[trigger] flag_at(args, i, flag);
        if n <= i {
            lemma_values_behind(args, n, i - n);
            assert(flag_at(rest, i - n, flag));
        }
    }
    if exists|i: int| #[trigger] flag_at(rest, i, flag) {
        let i = choose|i: int| #[trigger] flag_at(rest, i, flag);
        lemma_values_behind(args, n, i);
        assert(flag_at(args, n + i, flag));
    }
}

proof fn lemma_asked_behind(args: Seq<Seq<char>>, n: int, j: int, mode: Mode)
    requires
        0 <= n <= args.len(),
        0 <= j,
        !is_value(args, n),
    ensures
        asks_for(args.skip(n), j, mode) == asks_for(args, n + j, mode),
{
    if j < args.len() - n {
        lemma_values_behind(args, n, j);
        assert(args.skip(n)[j] == args[n + j]);
    }
}

proof fn lemma_modes_behind(args: Seq<Seq<char>>, n: int)
    requires
        0 < n <= args.len(),
        !is_value(args, n),
        forall|i: int, mode: Mode| i < n - 1 ==> !#[trigger] asks_for(args, i, mode),
    ensures
        (exists|j: int| #[trigger] asks_for(args, j, Mode::Popup)) <==> asks_for(
            args,
            n - 1,
            Mode::Popup,
        ) || exists|j: int| #[trigger] asks_for(args.skip(n), j, Mode::Popup),
        ends_with_dock(args) <==> ends_with_dock(args.skip(n)) || (asks_for(args, n - 1, Mode::Dock)
            && forall|j: int| !#[trigger] asks_for(args.skip(n), j, Mode::Popup)),
{
    let rest = args.skip(n);
    assert forall|j: int, mode: Mode| 0 <= j implies #[trigger] asks_for(rest, j, mode) == asks_for(
        args,
        n + j,
        mode,
    ) by {
        lemma_asked_behind(args, n, j, mode);
    }
    assert forall|j: int, mode: Mode| n <= j implies #[trigger] asks_for(args, j, mode) == asks_for(
        rest,
        j - n,
        mode,
    ) by {
        lemma_asked_behind(args, n, j - n, mode);
    }
    if ends_with_dock(args) {
        let i = choose|i: int|
            #[trigger] asks_for(args, i, Mode::Dock) && forall|j: int|
                i < j ==> !#[trigger] asks_for(args, j, Mode::Popup);
        if n <= i {
            assert(asks_for(rest, i - n, Mode::Dock));
        }
    }
    if ends_with_dock(rest) {
        let i = choose|i: int|
            #[trigger] asks_for(rest, i, Mode::Dock) && forall|j: int|
                i < j ==> !#[trigger] asks_for(rest, j, Mode::Popup);
        assert(asks_for(args, n + i, Mode::Dock));
    }
    if exists|j: int| #[trigger] asks_for(rest, j, Mode::Popup) {
        let j = choose|j: int| #[trigger] asks_for(rest, j, Mode::Popup);
        assert(asks_for(args, n + j, Mode::Popup));
    }
}

proof fn lemma_choices_from(so_far: (Mode, Scope, bool), args: Seq<Seq<char>>)
    ensures
        ({
            let (mode, scope, selftest) = with_arguments(so_far, args);
            &&& mode == Mode::Dock <==> ends_with_dock(args) || (so_far.0 == Mode::Dock && !exists|
                j: int,
            | #[trigger] asks_for(args, j, Mode::Popup))
            &&& scope == Scope::Global <==> so_far.1 == Scope::Global || exists|i: int| #[trigger]
                flag_at(args, i, "--global"@)
            &&& selftest <==> so_far.2 || exists|i: int| #[trigger]
                flag_at(args, i, "--selftest"@)
        }),
    decreases args.len(),
{
    lemma_arguments_differ();
    lemma_flags_differ();
    if args.len() > 0 {
        reveal_with_fuel(is_value, 3);
        assert(!is_value(args, 0));
        let n: int = if args[0] == "--mode"@ && args.len() >= 2 {
            2
        } else {
            1
        };
        let next = if n == 2 {
            (mode_named(args[1]), so_far.1, so_far.2)
        } else {
            with_argument(so_far, args[0])
        };
        if n == 1 && args[0] == "--mode"@ {
            lemma_lone_mode(so_far, args);
        } else {
            lemma_choices_from(next, args.skip(n));
            lemma_flags_behind(args, n, "--global"@);
            lemma_flags_behind(args, n, "--selftest"@);
            assert forall|i: int, mode: Mode| i < n - 1 implies !#[trigger] asks_for(
                args,
                i,
                mode,
            ) by {}
            lemma_modes_behind(args, n);
            assert(flag_at(args, 0, "--global"@) <==> args[0] == "--global"@);
            assert(flag_at(args, 0, "--selftest"@) <==> args[0] == "--selftest"@);
        }
    }
}

proof fn lemma_lone_mode(so_far: (Mode, Scope, bool), args: Seq<Seq<char>>)
    requires
        args.len() == 1,
        args[0] == "--mode"@,
    ensures
        with_arguments(so_far, args) == so_far,
        forall|i: int, mode: Mode| !#[trigger] asks_for(args, i, mode),
        forall|i: int| !#[trigger] flag_at(args, i, "--global"@),
        forall|i: int| !#[trigger] flag_at(args, i, "--selftest"@),
{
    lemma_arguments_differ();
    reveal_with_fuel(with_arguments, 2);
    assert(!is_value(args, 0));
}

proof fn lemma_flags_differ()
    ensures
        "--dock"@ != "--popup"@,
        "--dock"@ != "--board"@,
        "--dock"@ != "--global"@,
        "--dock"@ != "--selftest"@,
        "--popup"@ != "--global"@,
        "--popup"@ != "--selftest"@,
        "--board"@ != "--global"@,
        "--board"@ != "--selftest"@,
        "--global"@ != "--selftest"@,
{
    reveal_strlit("--dock");
    reveal_strlit("--popup");
    reveal_strlit("--board");
    reveal_strlit("--global");
    reveal_strlit("--selftest");
    assert("--dock"@[2] == 'd');
    assert("--popup"@[2] == 'p');
    assert("--board"@[2] == 'b');
    assert("--global"@[2] == 'g');
    assert("--selftest"@[2] == 's');
}

/// Law: the board is docked exactly where the last argument that asks for a
/// mode asks for the dock, it shows every repository exactly where `--global`
/// is given, and it runs the self test exactly where `--selftest` is given. An
/// argument behind a `--mode` is that one's value and no flag.
pub proof fn law_choices(args: Seq<Seq<char>>)
    ensures
        are_choices(args, with_arguments(default_choices(), args)),
{
    lemma_choices_from(default_choices(), args);
}

/// Law: the launcher can tell the two panes apart by their titles.
pub proof fn law_titles()
    ensures
        title_of(Mode::Dock) == "herdr-beads-dock"@,
        title_of(Mode::Popup) == "herdr-beads-board"@,
        title_of(Mode::Dock) != title_of(Mode::Popup),
{
    reveal_strlit("herdr-beads-dock");
    reveal_strlit("herdr-beads-board");
    assert("herdr-beads-dock"@.len() != "herdr-beads-board"@.len());
}

} // verus!
