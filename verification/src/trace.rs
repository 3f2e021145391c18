//! The lines of the latency log.

use crate::text;
use vstd::prelude::*;
use vstd::string::StringExecFns;

verus! {

/// `s` with as many `fill` in front as make it `width` characters wide.
pub open spec fn padded(s: Seq<char>, width: nat, fill: char) -> Seq<char> {
    if s.len() >= width {
        s
    } else {
        Seq::new((width - s.len()) as nat, |i: int| fill) + s
    }
}

fn pad(s: &str, width: usize, fill: &str) -> (r: String)
    requires
        fill@.len() == 1,
    ensures
        r@ == padded(s@, width as nat, fill@[0]),
{
    let ghost c = fill@[0];
    let n: usize = text::chars_of(s).len();
    let mut r = String::new();
    let mut i: usize = n;
    assert(r@ =~= Seq::new(0, |k: int| c));
    while i < width
        invariant
            n <= i,
            i <= width || i == n,
            fill@.len() == 1,
            c == fill@[0],
            r@ == Seq::new((i - n) as nat, |k: int| c),
        decreases width - i,
    {
        r.append(fill);
        assert(r@ =~= Seq::new((i + 1 - n) as nat, |k: int| c));
        i = i + 1;
    }
    r.append(s);
    assert(r@ =~= padded(s@, width as nat, c));
    r
}

/// A line of the latency log: the time in seconds and milliseconds, the
/// process, how many milliseconds something took, and what it was.
pub open spec fn line(
    secs: nat,
    millis: nat,
    pid: nat,
    took: Seq<char>,
    what: Seq<char>,
) -> Seq<char> {
    text::decimal(secs) + "."@ + padded(text::decimal(millis), 3, '0') + " pid="@ + text::decimal(
        pid,
    ) + " "@ + padded(took, 8, ' ') + "ms "@ + what + "\n"@
}

/// Writes a line of the latency log. `took` is the number of milliseconds as
/// it is to be shown.
pub fn trace_line(secs: u64, millis: u32, pid: u32, took: &str, what: &str) -> (r: String)
    ensures
        r@ == line(secs as nat, millis as nat, pid as nat, took@, what@),
{
    proof {
        reveal_strlit("0");
        reveal_strlit(" ");
        assert("0"@[0] == '0');
        assert(" "@[0] == ' ');
    }
    let mut r = text::write_decimal(secs);
    r.append(".");
    r.append(pad(text::write_decimal(millis as u64).as_str(), 3, "0").as_str());
    r.append(" pid=");
    r.append(text::write_decimal(pid as u64).as_str());
    r.append(" ");
    r.append(pad(took, 8, " ").as_str());
    r.append("ms ");
    r.append(what);
    r.append("\n");
    r
}

/// What the log calls a run of `bd`: its first argument tells which.
pub fn run_label(args: &[String]) -> (r: String)
    ensures
        r@ == "  bd "@ + (if args@.len() == 0 {
            seq![]
        } else {
            args@[0]@
        }),
{
    let mut r = "  bd ".to_owned();
    if args.len() > 0 {
        r.append(args[0].as_str());
    }
    r
}

/// What the log calls a key, given how the key itself is written.
pub fn key_label(code: &str) -> (r: String)
    ensures
        r@ == "key "@ + code@,
{
    let mut r = "key ".to_owned();
    r.append(code);
    r
}

/// Law: padding puts nothing but fill characters in front of a text, as many as
/// make it as wide as asked, and takes nothing away.
pub proof fn law_padding(s: Seq<char>, width: nat, fill: char)
    ensures
        padded(s, width, fill).len() == if s.len() > width {
            s.len()
        } else {
            width
        },
        padded(s, width, fill).skip(padded(s, width, fill).len() - s.len()) == s,
        forall|i: int|
            0 <= i < padded(s, width, fill).len() - s.len() ==> #[trigger] padded(
                s,
                width,
                fill,
            )[i] == fill,
{
    let p = padded(s, width, fill);
    assert(p.skip(p.len() - s.len()) =~= s);
}

/// Law: a line of the log can be read back: the seconds up to the point, at
/// least three digits of milliseconds, the process behind ` pid=`, the time
/// taken at the right of at least eight columns before `ms `, and then what it
/// was, up to the end of the line.
pub proof fn law_line_reads_back(
    secs: nat,
    millis: nat,
    pid: nat,
    took: Seq<char>,
    what: Seq<char>,
)
    ensures
        ({
            let l = line(secs, millis, pid, took, what);
            let a = text::decimal(secs).len() as int;
            let digits = text::decimal(millis).len() as int;
            let m: int = if digits > 3 {
                digits
            } else {
                3
            };
            let b = text::decimal(pid).len() as int;
            let w: int = if took.len() > 8 {
                took.len() as int
            } else {
                8
            };
            let p = a + 1 + m + 5;
            let c = p + b + 1;
            &&& l.len() == c + w + 3 + what.len() + 1
            &&& text::number_of(l.take(a)) == secs
            &&& l.subrange(a, a + 1) == "."@
            &&& text::number_of(l.subrange(a + 1, a + 1 + m)) == millis
            &&& l.subrange(a + 1 + m, p) == " pid="@
            &&& text::number_of(l.subrange(p, p + b)) == pid
            &&& l.subrange(p + b, c) == " "@
            &&& l.subrange(c + w - took.len(), c + w) == took
            &&& forall|i: int| c <= i < c + w - took.len() ==> #[trigger] l[i] == ' '
            &&& l.subrange(c + w, c + w + 3) == "ms "@
            &&& l.subrange(c + w + 3, l.len() - 1) == what
            &&& l.skip(l.len() - 1) == "\n"@
        }),
{
    reveal_strlit(".");
    reveal_strlit(" pid=");
    reveal_strlit(" ");
    reveal_strlit("ms ");
    reveal_strlit("\n");
    assert("."@.len() == 1 && " pid="@.len() == 5 && " "@.len() == 1 && "ms "@.len() == 3
        && "\n"@.len() == 1);
    text::law_decimal_reads_back(secs);
    text::law_decimal_reads_back(pid);
    text::law_decimal_reads_back(millis);
    let ms = padded(text::decimal(millis), 3, '0');
    lemma_zeros_count_nothing(text::decimal(millis), 3);
    law_padding(text::decimal(millis), 3, '0');
    let t = padded(took, 8, ' ');
    law_padding(took, 8, ' ');
    let l = line(secs, millis, pid, took, what);
    let a = text::decimal(secs).len() as int;
    let b = text::decimal(pid).len() as int;
    let w = t.len() as int;
    let p = a + 1 + ms.len() + 5;
    let c = p + b + 1;
    assert(l.take(a) =~= text::decimal(secs));
    assert(l.subrange(a, a + 1) =~= "."@);
    assert(l.subrange(a + 1, a + 1 + ms.len()) =~= ms);
    assert(l.subrange(a + 1 + ms.len(), p) =~= " pid="@);
    assert(l.subrange(p, p + b) =~= text::decimal(pid));
    assert(l.subrange(p + b, c) =~= " "@);
    assert(l.subrange(c, c + w) =~= t);
    assert(l.subrange(c + w - took.len(), c + w) =~= t.skip(w - took.len()));
    assert forall|i: int| c <= i < c + w - took.len() implies #[trigger] l[i] == ' ' by {
        assert(t[i - c] == l.subrange(c, c + w)[i - c]);
    }
    assert(l.subrange(c + w, c + w + 3) =~= "ms "@);
    assert(l.subrange(c + w + 3, l.len() - 1) =~= what);
    assert(l.skip(l.len() - 1) =~= "\n"@);
}

proof fn lemma_zeros_count_nothing(s: Seq<char>, width: nat)
    ensures
        text::number_of(padded(s, width, '0')) == text::number_of(s),
    decreases s.len() + width,
{
    let p = padded(s, width, '0');
    if s.len() < width {
        if s.len() > 0 {
            lemma_zeros_count_nothing(s.drop_last(), (width - 1) as nat);
            assert(p.drop_last() =~= padded(s.drop_last(), (width - 1) as nat, '0'));
            assert(p.last() == s.last());
        } else {
            lemma_zeros_count_nothing(s, (width - 1) as nat);
            assert(p.drop_last() =~= padded(s, (width - 1) as nat, '0'));
            assert(p.last() == '0');
        }
    }
}

} // verus!
