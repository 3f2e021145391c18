//! Text as the board needs it: trimming, splitting into words, joining,
//! comparing and writing numbers in decimal.
//!
//! A text is modelled by its sequence of characters.

use vstd::prelude::*;
use vstd::string::{StrSliceExecFns, StringExecFns};

verus! {

/// The characters with the Unicode property `White_Space`.
pub open spec fn white_space(c: char) -> bool {
    let u = c as u32;
    ||| 0x09 <= u <= 0x0d
    ||| u == 0x20
    ||| u == 0x85
    ||| u == 0xa0
    ||| u == 0x1680
    ||| 0x2000 <= u <= 0x200a
    ||| u == 0x2028
    ||| u == 0x2029
    ||| u == 0x202f
    ||| u == 0x205f
    ||| u == 0x3000
}

/// `s` without its leading white space.
pub open spec fn trimmed_start(s: Seq<char>) -> Seq<char>
    decreases s.len(),
{
    if s.len() > 0 && white_space(s.first()) {
        trimmed_start(s.drop_first())
    } else {
        s
    }
}

/// `s` without its trailing white space.
pub open spec fn trimmed_end(s: Seq<char>) -> Seq<char>
    decreases s.len(),
{
    if s.len() > 0 && white_space(s.last()) {
        trimmed_end(s.drop_last())
    } else {
        s
    }
}

/// `s` without white space at either end.
pub open spec fn trimmed(s: Seq<char>) -> Seq<char> {
    trimmed_end(trimmed_start(s))
}

/// Whether `s` holds nothing but white space.
pub open spec fn blank(s: Seq<char>) -> bool {
    forall|i: int| 0 <= i < s.len() ==> white_space(#[trigger] s[i])
}

/// How many characters `s` starts with before the first white space.
pub open spec fn word_len(s: Seq<char>) -> nat
    decreases s.len(),
{
    if s.len() == 0 || white_space(s.first()) {
        0
    } else {
        1 + word_len(s.drop_first())
    }
}

/// The words of `s`: its longest stretches without white space, in order.
pub open spec fn words(s: Seq<char>) -> Seq<Seq<char>>
    decreases s.len(),
{
    if s.len() == 0 {
        seq![]
    } else if white_space(s.first()) {
        words(s.drop_first())
    } else {
        let n = word_len(s) as int;
        if 0 < n <= s.len() {
            seq![s.take(n)] + words(s.skip(n))
        } else {
            seq![]
        }
    }
}

/// The texts of `parts` with `sep` between each two.
pub open spec fn joined(parts: Seq<Seq<char>>, sep: Seq<char>) -> Seq<char>
    decreases parts.len(),
{
    if parts.len() == 0 {
        seq![]
    } else if parts.len() == 1 {
        parts[0]
    } else {
        joined(parts.drop_last(), sep) + sep + parts.last()
    }
}

/// The character that writes the digit `d`.
pub open spec fn digit(d: nat) -> char {
    ('0' as u32 + d) as char
}

/// `n` in decimal, without leading zeros.
pub open spec fn decimal(n: nat) -> Seq<char>
    decreases n,
{
    if n < 10 {
        seq![digit(n)]
    } else {
        decimal(n / 10).push(digit(n % 10))
    }
}

/// Whether `a` comes no later than `b` in the order of code points, a text
/// coming before its own continuations.
pub open spec fn ordered(a: Seq<char>, b: Seq<char>) -> bool
    decreases a.len(),
{
    if a.len() == 0 {
        true
    } else if b.len() == 0 {
        false
    } else if a.first() != b.first() {
        (a.first() as int) < (b.first() as int)
    } else {
        ordered(a.drop_first(), b.drop_first())
    }
}

/// The texts of a list of strings.
pub open spec fn texts(v: Seq<String>) -> Seq<Seq<char>> {
    v.map_values(|s: String| s@)
}

proof fn lemma_trimmed_start_skips(s: Seq<char>, i: int)
    requires
        0 <= i <= s.len(),
        forall|k: int| 0 <= k < i ==> white_space(#[trigger] s[k]),
        i == s.len() || !white_space(s[i]),
    ensures
        trimmed_start(s) == s.skip(i),
    decreases i,
{
    if i > 0 {
        let t = s.drop_first();
        assert(white_space(s[0]));
        assert forall|k: int| 0 <= k < i - 1 implies white_space(#[trigger] t[k]) by {
            assert(t[k] == s[k + 1]);
        }
        lemma_trimmed_start_skips(t, i - 1);
        assert(t.skip(i - 1) =~= s.skip(i));
    } else {
        assert(s.skip(0) =~= s);
    }
}

proof fn lemma_trimmed_end_takes(s: Seq<char>, j: int)
    requires
        0 <= j <= s.len(),
        forall|k: int| j <= k < s.len() ==> white_space(#[trigger] s[k]),
        j == 0 || !white_space(s[j - 1]),
    ensures
        trimmed_end(s) == s.take(j),
    decreases s.len() - j,
{
    if j < s.len() {
        assert(white_space(s[s.len() - 1]));
        lemma_trimmed_end_takes(s.drop_last(), j);
        assert(s.drop_last().take(j) =~= s.take(j));
    } else {
        assert(s.take(j) =~= s);
    }
}

/// Trimming cuts out the stretch from the first to the last character that is
/// not white space, and nothing at all of a blank text.
pub proof fn lemma_trimmed_is_subrange(s: Seq<char>)
    ensures
        blank(s) <==> trimmed(s).len() == 0,
        exists|i: int, j: int|
            {
                &&& 0 <= i <= j <= s.len()
                &&& trimmed(s) == #[trigger] s.subrange(i, j)
                &&& forall|k: int| 0 <= k < i || j <= k < s.len() ==> white_space(#[trigger] s[k])
                &&& i < j ==> !white_space(s[i]) && !white_space(s[j - 1])
            },
{
    let i = first_dark(s, 0);
    lemma_first_dark(s, 0);
    lemma_trimmed_start_skips(s, i);
    let t = s.skip(i);
    let j = last_dark(t, t.len() as int);
    lemma_last_dark(t, t.len() as int);
    lemma_trimmed_end_takes(t, j);
    assert(t.take(j) =~= s.subrange(i, i + j));
    assert forall|k: int| 0 <= k < i || i + j <= k < s.len() implies white_space(#[trigger] s[k]) by {
        if k >= i + j {
            assert(t[k - i] == s[k]);
        }
    }
    if i < s.len() {
        assert(t[0] == s[i]);
        assert(j > 0);
        assert(t[j - 1] == s[i + j - 1]);
    }
}

proof fn lemma_trimmed_start_within(a: Seq<char>, s: Seq<char>)
    requires
        blank(a),
    ensures
        trimmed_start(a + s) == trimmed_start(s),
    decreases a.len(),
{
    if a.len() > 0 {
        let t = a.drop_first();
        assert(white_space(a[0]));
        assert forall|i: int| 0 <= i < t.len() implies white_space(#[trigger] t[i]) by {
            assert(t[i] == a[i + 1]);
        }
        lemma_trimmed_start_within(t, s);
        assert((a + s).drop_first() =~= t + s);
    } else {
        assert(a + s =~= s);
    }
}

proof fn lemma_trimmed_end_within(s: Seq<char>, b: Seq<char>)
    requires
        blank(b),
    ensures
        trimmed_end(s + b) == trimmed_end(s),
    decreases b.len(),
{
    if b.len() > 0 {
        let t = b.drop_last();
        assert(white_space(b[b.len() - 1]));
        assert(blank(t));
        lemma_trimmed_end_within(s, t);
        assert((s + b).drop_last() =~= s + t);
    } else {
        assert(s + b =~= s);
    }
}

/// White space around a text is trimmed away with the rest.
pub proof fn lemma_trimmed_within_blank(a: Seq<char>, s: Seq<char>, b: Seq<char>)
    requires
        blank(a),
        blank(b),
    ensures
        trimmed(a + s + b) == trimmed(s),
{
    assert(a + s + b =~= a + (s + b));
    lemma_trimmed_start_within(a, s + b);
    let i = first_dark(s, 0);
    lemma_first_dark(s, 0);
    if i < s.len() {
        lemma_trimmed_start_skips(s, i);
        assert forall|k: int| 0 <= k < i implies white_space(#[trigger] (s + b)[k]) by {
            assert((s + b)[k] == s[k]);
        }
        lemma_trimmed_start_skips(s + b, i);
        assert((s + b).skip(i) =~= s.skip(i) + b);
        lemma_trimmed_end_within(s.skip(i), b);
    } else {
        assert(blank(s));
        lemma_trimmed_start_within(s, b);
        lemma_trimmed_start_skips(s, s.len() as int);
        assert(forall|k: int| 0 <= k < b.len() ==> white_space(#[trigger] b[k]));
        lemma_trimmed_start_skips(b, b.len() as int);
        assert(s.skip(s.len() as int) =~= b.skip(b.len() as int));
    }
}

spec fn first_dark(s: Seq<char>, i: int) -> int
    decreases s.len() - i,
{
    if 0 <= i < s.len() && white_space(s[i]) {
        first_dark(s, i + 1)
    } else {
        i
    }
}

proof fn lemma_first_dark(s: Seq<char>, i: int)
    requires
        0 <= i <= s.len(),
    ensures
        i <= first_dark(s, i) <= s.len(),
        forall|k: int| i <= k < first_dark(s, i) ==> white_space(#[trigger] s[k]),
        first_dark(s, i) == s.len() || !white_space(s[first_dark(s, i)]),
    decreases s.len() - i,
{
    if i < s.len() && white_space(s[i]) {
        lemma_first_dark(s, i + 1);
    }
}

spec fn last_dark(s: Seq<char>, j: int) -> int
    decreases j,
{
    if 0 < j <= s.len() && white_space(s[j - 1]) {
        last_dark(s, j - 1)
    } else {
        j
    }
}

proof fn lemma_last_dark(s: Seq<char>, j: int)
    requires
        0 <= j <= s.len(),
    ensures
        0 <= last_dark(s, j) <= j,
        forall|k: int| last_dark(s, j) <= k < j ==> white_space(#[trigger] s[k]),
        last_dark(s, j) == 0 || !white_space(s[last_dark(s, j) - 1]),
    decreases j,
{
    if 0 < j && white_space(s[j - 1]) {
        lemma_last_dark(s, j - 1);
    }
}

/// What `String::from_utf8_lossy` makes of bytes.
pub uninterp spec fn lossy(bytes: Seq<u8>) -> Seq<char>;

/// Calls `String::from_utf8_lossy`. Claimed: the text depends on the bytes
/// alone, and bytes that are valid UTF-8 are decoded as they are. What stands
/// for invalid bytes is left unsaid.
#[verifier::external_body]
pub(crate) fn from_utf8_lossy(bytes: &[u8]) -> (r: String)
    ensures
        r@ == lossy(bytes@),
        vstd::utf8::valid_utf8(bytes@) ==> r@ == vstd::utf8::decode_utf8(bytes@),
{
    String::from_utf8_lossy(bytes).into_owned()
}

/// The characters of `s`.
pub fn chars_of(s: &str) -> (r: Vec<char>)
    ensures
        r@ == s@,
{
    let mut r: Vec<char> = Vec::new();
    for c in it: s.chars()
        invariant
            it.seq() == s@,
            r@ == s@.take(it.index() as int),
    {
        r.push(c);
        assert(s@.take(it.index() + 1) =~= s@.take(it.index() as int).push(c));
    }
    assert(s@.take(s@.len() as int) =~= s@);
    r
}

/// Whether `c` is white space.
pub fn is_white_space(c: char) -> (r: bool)
    ensures
        r == white_space(c),
{
    let u: u32 = c as u32;
    (0x09 <= u && u <= 0x0d) || u == 0x20 || u == 0x85 || u == 0xa0 || u == 0x1680 || (0x2000 <= u
        && u <= 0x200a) || u == 0x2028 || u == 0x2029 || u == 0x202f || u == 0x205f || u == 0x3000
}

/// `s` without white space at either end.
pub fn trim(s: &str) -> (r: &str)
    ensures
        r@ == trimmed(s@),
{
    let chars = chars_of(s);
    let n: usize = chars.len();
    let mut i: usize = 0;
    while i < n && is_white_space(chars[i])
        invariant
            n == chars@.len(),
            i <= n,
            forall|k: int| 0 <= k < i ==> white_space(#[trigger] chars@[k]),
        decreases n - i,
    {
        i = i + 1;
    }
    let mut j: usize = n;
    while i < j && is_white_space(chars[j - 1])
        invariant
            n == chars@.len(),
            i <= j <= n,
            forall|k: int| j <= k < n ==> white_space(#[trigger] chars@[k]),
        decreases j,
    {
        j = j - 1;
    }
    proof {
        lemma_trimmed_start_skips(s@, i as int);
        let t = s@.skip(i as int);
        assert forall|k: int| j - i <= k < t.len() implies white_space(#[trigger] t[k]) by {
            assert(t[k] == chars@[k + i]);
        }
        lemma_trimmed_end_takes(t, j - i);
        assert(t.take(j - i) =~= s@.subrange(i as int, j as int));
    }
    s.substring_char(i, j)
}

proof fn lemma_word_len(s: Seq<char>, n: int)
    requires
        0 <= n <= s.len(),
        forall|k: int| 0 <= k < n ==> !white_space(#[trigger] s[k]),
        n == s.len() || white_space(s[n]),
    ensures
        word_len(s) == n,
    decreases n,
{
    if n > 0 {
        let t = s.drop_first();
        assert(!white_space(s[0]));
        assert forall|k: int| 0 <= k < n - 1 implies !white_space(#[trigger] t[k]) by {
            assert(t[k] == s[k + 1]);
        }
        lemma_word_len(t, n - 1);
    }
}

proof fn lemma_word_len_bounds(s: Seq<char>)
    ensures
        word_len(s) <= s.len(),
        forall|k: int| 0 <= k < word_len(s) ==> !white_space(#[trigger] s[k]),
        word_len(s) == s.len() || white_space(s[word_len(s) as int]),
    decreases s.len(),
{
    if s.len() > 0 && !white_space(s.first()) {
        let t = s.drop_first();
        lemma_word_len_bounds(t);
        assert forall|k: int| 0 <= k < word_len(s) implies !white_space(#[trigger] s[k]) by {
            if k > 0 {
                assert(t[k - 1] == s[k]);
            }
        }
    }
}

/// Every word is non-empty and free of white space, and there is no word at
/// all exactly when the text is blank.
pub proof fn lemma_words_are_words(s: Seq<char>)
    ensures
        forall|k: int|
            0 <= k < words(s).len() ==> {
                &&& (#[trigger] words(s)[k]).len() > 0
                &&& forall|i: int|
                    0 <= i < words(s)[k].len() ==> !white_space(#[trigger] words(s)[k][i])
            },
        words(s).len() == 0 <==> blank(s),
    decreases s.len(),
{
    if s.len() == 0 {
    } else if white_space(s.first()) {
        let t = s.drop_first();
        lemma_words_are_words(t);
        assert(blank(s) == blank(t)) by {
            if blank(t) {
                assert forall|i: int| 0 <= i < s.len() implies white_space(#[trigger] s[i]) by {
                    if i > 0 {
                        assert(t[i - 1] == s[i]);
                    }
                }
            }
            if blank(s) {
                assert forall|i: int| 0 <= i < t.len() implies white_space(#[trigger] t[i]) by {
                    assert(t[i] == s[i + 1]);
                }
            }
        }
    } else {
        let n = word_len(s) as int;
        lemma_word_len_bounds(s);
        lemma_words_are_words(s.skip(n));
        assert(!white_space(s[0]));
        assert forall|k: int| 0 <= k < words(s).len() implies {
            &&& (#[trigger] words(s)[k]).len() > 0
            &&& forall|i: int| 0 <= i < words(s)[k].len() ==> !white_space(#[trigger] words(s)[k][i])
        } by {
            if k > 0 {
                assert(words(s)[k] == words(s.skip(n))[k - 1]);
            }
        }
    }
}

/// The words of `s`, in order.
pub fn split_words(s: &str) -> (r: Vec<String>)
    ensures
        texts(r@) == words(s@),
        is_split(s@, texts(r@)),
{
    let chars = chars_of(s);
    let n: usize = chars.len();
    let mut r: Vec<String> = Vec::new();
    let mut i: usize = 0;
    assert(s@.skip(0) =~= s@);
    assert(texts(r@) =~= seq![]);
    while i < n
        invariant
            n == chars@.len(),
            chars@ == s@,
            i <= n,
            words(s@) == texts(r@) + words(s@.skip(i as int)),
        decreases n - i,
    {
        if is_white_space(chars[i]) {
            assert(s@.skip(i as int).drop_first() =~= s@.skip(i + 1));
            i = i + 1;
        } else {
            let start: usize = i;
            while i < n && !is_white_space(chars[i])
                invariant
                    n == chars@.len(),
                    chars@ == s@,
                    start <= i <= n,
                    forall|k: int| start <= k < i ==> !white_space(#[trigger] chars@[k]),
                decreases n - i,
            {
                i = i + 1;
            }
            let word = s.substring_char(start, i).to_owned();
            let ghost before = r@;
            r.push(word);
            proof {
                let t = s@.skip(start as int);
                assert forall|k: int| 0 <= k < i - start implies !white_space(#[trigger] t[k]) by {
                    assert(t[k] == chars@[k + start]);
                }
                lemma_word_len(t, i - start);
                assert(t[0] == chars@[start as int]);
                assert(t.take(i - start) =~= word@);
                assert(t.skip(i - start) =~= s@.skip(i as int));
                assert(texts(r@) =~= texts(before).push(word@));
                assert(texts(before) + (seq![word@] + words(s@.skip(i as int))) =~= texts(r@)
                    + words(s@.skip(i as int)));
            }
        }
    }
    assert(s@.skip(i as int) =~= seq![]);
    assert(texts(r@) + words(s@.skip(i as int)) =~= texts(r@));
    proof {
        law_words_are_the_stretches(s@);
    }
    r
}

/// The strings of `parts` with `sep` between each two.
pub fn join(parts: &[String], sep: &str) -> (r: String)
    ensures
        r@ == joined(texts(parts@), sep@),
{
    let mut r = String::new();
    let n: usize = parts.len();
    let ghost all = texts(parts@);
    let mut i: usize = 0;
    assert(all.take(0) =~= seq![]);
    while i < n
        invariant
            n == parts@.len(),
            all == texts(parts@),
            i <= n,
            r@ == joined(all.take(i as int), sep@),
        decreases n - i,
    {
        if i > 0 {
            r.append(sep);
        }
        r.append(parts[i].as_str());
        proof {
            let t = all.take(i + 1);
            assert(t.drop_last() =~= all.take(i as int));
            assert(t.last() == parts@[i as int]@);
            if i == 0 {
                assert(joined(all.take(0), sep@) =~= seq![]);
                assert(r@ =~= parts@[0]@);
            }
        }
        i = i + 1;
    }
    assert(all.take(n as int) =~= all);
    r
}

/// The text of the digit `d`.
fn digit_text(d: u64) -> (r: &'static str)
    requires
        d < 10,
    ensures
        r@ == seq![digit(d as nat)],
{
    proof {
        reveal_strlit("0");
        reveal_strlit("1");
        reveal_strlit("2");
        reveal_strlit("3");
        reveal_strlit("4");
        reveal_strlit("5");
        reveal_strlit("6");
        reveal_strlit("7");
        reveal_strlit("8");
        reveal_strlit("9");
    }
    let r: &'static str = match d {
        0 => "0",
        1 => "1",
        2 => "2",
        3 => "3",
        4 => "4",
        5 => "5",
        6 => "6",
        7 => "7",
        8 => "8",
        _ => "9",
    };
    assert(r@ =~= seq![digit(d as nat)]);
    r
}

/// `n` in decimal.
pub fn write_decimal(n: u64) -> (r: String)
    ensures
        r@ == decimal(n as nat),
    decreases n,
{
    if n < 10 {
        digit_text(n).to_owned()
    } else {
        let mut r = write_decimal(n / 10);
        r.append(digit_text(n % 10));
        assert(r@ =~= decimal((n / 10) as nat).push(digit((n % 10) as nat)));
        r
    }
}

/// Whether two texts are the same.
pub fn same(a: &str, b: &str) -> (r: bool)
    ensures
        r == (a@ == b@),
{
    let x = a.as_bytes();
    let y = b.as_bytes();
    proof {
        vstd::utf8::encode_utf8_decode_utf8(a@);
        vstd::utf8::encode_utf8_decode_utf8(b@);
    }
    if x.len() != y.len() {
        return false;
    }
    let n: usize = x.len();
    let mut i: usize = 0;
    while i < n
        invariant
            n == x@.len(),
            n == y@.len(),
            x@ == vstd::utf8::encode_utf8(a@),
            y@ == vstd::utf8::encode_utf8(b@),
            i <= n,
            forall|k: int| 0 <= k < i ==> x@[k] == y@[k],
        decreases n - i,
    {
        if x[i] != y[i] {
            return false;
        }
        i = i + 1;
    }
    assert(x@ =~= y@);
    true
}

proof fn lemma_ordered_after_common(a: Seq<char>, b: Seq<char>, i: int)
    requires
        0 <= i <= a.len(),
        i <= b.len(),
        forall|k: int| 0 <= k < i ==> a[k] == b[k],
    ensures
        ordered(a, b) == ordered(a.skip(i), b.skip(i)),
    decreases i,
{
    if i > 0 {
        assert(a[0] == b[0]);
        lemma_ordered_after_common(a.drop_first(), b.drop_first(), i - 1);
        assert(a.drop_first().skip(i - 1) =~= a.skip(i));
        assert(b.drop_first().skip(i - 1) =~= b.skip(i));
    } else {
        assert(a.skip(0) =~= a);
        assert(b.skip(0) =~= b);
    }
}

/// Whether `a` comes no later than `b`.
pub fn is_ordered(a: &str, b: &str) -> (r: bool)
    ensures
        r == ordered(a@, b@),
{
    let x = chars_of(a);
    let y = chars_of(b);
    let mut i: usize = 0;
    while i < x.len() && i < y.len() && x[i] == y[i]
        invariant
            i <= x@.len(),
            i <= y@.len(),
            forall|k: int| 0 <= k < i ==> x@[k] == y@[k],
        decreases x@.len() - i,
    {
        i = i + 1;
    }
    proof {
        lemma_ordered_after_common(a@, b@, i as int);
    }
    if i == x.len() {
        true
    } else if i == y.len() {
        false
    } else {
        x[i] < y[i]
    }
}

/// The order of texts is total, and two texts that come no later than each
/// other are the same.
pub proof fn lemma_ordered_is_total(a: Seq<char>, b: Seq<char>)
    ensures
        ordered(a, b) || ordered(b, a),
        ordered(a, b) && ordered(b, a) ==> a == b,
    decreases a.len(),
{
    if a.len() > 0 && b.len() > 0 && a.first() == b.first() {
        lemma_ordered_is_total(a.drop_first(), b.drop_first());
        if ordered(a, b) && ordered(b, a) {
            assert(a =~= seq![a.first()] + a.drop_first());
            assert(b =~= seq![b.first()] + b.drop_first());
        }
    } else if a.len() == 0 && b.len() == 0 {
        assert(a =~= b);
    }
}

/// The order of texts is transitive.
pub proof fn lemma_ordered_is_transitive(a: Seq<char>, b: Seq<char>, c: Seq<char>)
    requires
        ordered(a, b),
        ordered(b, c),
    ensures
        ordered(a, c),
    decreases a.len(),
{
    if a.len() > 0 && a.first() == b.first() && b.first() == c.first() {
        lemma_ordered_is_transitive(a.drop_first(), b.drop_first(), c.drop_first());
    }
}

/// Whether `spans` are the longest stretches of `s` without white space, in
/// order, and all of them: each goes from `.0` up to `.1`.
pub open spec fn are_stretches(s: Seq<char>, spans: Seq<(int, int)>) -> bool {
    &&& forall|k: int|
        0 <= k < spans.len() ==> {
            let (i, j) = #[trigger] spans[k];
            &&& 0 <= i < j <= s.len()
            &&& i > 0 ==> white_space(s[i - 1])
            &&& j < s.len() ==> white_space(s[j])
            &&& forall|m: int| i <= m < j ==> !white_space(#[trigger] s[m])
        }
    &&& forall|k: int, l: int|
        0 <= k < l < spans.len() ==> (#[trigger] spans[k]).1 < (#[trigger] spans[l]).0
    &&& forall|m: int|
        0 <= m < s.len() && !white_space(#[trigger] s[m]) ==> exists|k: int|
            0 <= k < spans.len() && (#[trigger] spans[k]).0 <= m < spans[k].1
}

/// Whether `parts` are the longest stretches of `s` without white space, in
/// order, and all of them.
pub open spec fn is_split(s: Seq<char>, parts: Seq<Seq<char>>) -> bool {
    exists|spans: Seq<(int, int)>|
        {
            &&& #[trigger] are_stretches(s, spans)
            &&& spans.len() == parts.len()
            &&& forall|k: int|
                0 <= k < parts.len() ==> #[trigger] parts[k] == s.subrange(spans[k].0, spans[k].1)
        }
}

/// `spans`, each `n` further to the right.
spec fn shifted(spans: Seq<(int, int)>, n: int) -> Seq<(int, int)> {
    spans.map_values(|p: (int, int)| (p.0 + n, p.1 + n))
}

proof fn lemma_word_spans(s: Seq<char>) -> (spans: Seq<(int, int)>)
    ensures
        are_stretches(s, spans),
        spans.len() == words(s).len(),
        forall|k: int|
            0 <= k < words(s).len() ==> #[trigger] words(s)[k] == s.subrange(
                spans[k].0,
                spans[k].1,
            ),
    decreases s.len(),
{
    if s.len() == 0 {
        seq![]
    } else if white_space(s.first()) {
        let t = s.drop_first();
        let inner = lemma_word_spans(t);
        let spans = shifted(inner, 1);
        lemma_spans_shift(s, 1, inner, seq![]);
        assert(seq![] + spans =~= spans);
        assert forall|k: int| 0 <= k < words(s).len() implies #[trigger] words(s)[k] == s.subrange(
            spans[k].0,
            spans[k].1,
        ) by {
            assert(words(s)[k] == words(t)[k]);
            assert(t =~= s.skip(1));
            assert(t.subrange(inner[k].0, inner[k].1) =~= s.subrange(spans[k].0, spans[k].1));
        }
        spans
    } else {
        let n = word_len(s) as int;
        lemma_word_len_bounds(s);
        let t = s.skip(n);
        let inner = lemma_word_spans(t);
        let first: Seq<(int, int)> = seq![(0int, n)];
        let spans = first + shifted(inner, n);
        assert(!white_space(s[0]));
        lemma_spans_shift(s, n, inner, first);
        assert(s.take(n) =~= s.subrange(0, n));
        assert forall|k: int| 0 <= k < words(s).len() implies #[trigger] words(s)[k] == s.subrange(
            spans[k].0,
            spans[k].1,
        ) by {
            if k > 0 {
                assert(words(s)[k] == words(t)[k - 1]);
                assert(spans[k] == shifted(inner, n)[k - 1]);
                assert(t.subrange(inner[k - 1].0, inner[k - 1].1) =~= s.subrange(
                    spans[k].0,
                    spans[k].1,
                ));
            }
        }
        spans
    }
}

/// Puts the stretches of the rest of `s` behind the stretch, if any, that the
/// first `n` characters are.
proof fn lemma_spans_shift(s: Seq<char>, n: int, inner: Seq<(int, int)>, first: Seq<(int, int)>)
    requires
        0 < n <= s.len(),
        are_stretches(s.skip(n), inner),
        first =~= seq![] || first =~= seq![(0int, n)],
        first =~= seq![] ==> n == 1 && white_space(s[0]),
        first.len() == 1 ==> (n < s.len() ==> white_space(s[n])) && forall|m: int|
            0 <= m < n ==> !white_space(#[trigger] s[m]),
    ensures
        are_stretches(s, first + shifted(inner, n)),
{
    let t = s.skip(n);
    let moved = shifted(inner, n);
    let spans = first + moved;
    let f = first.len() as int;
    assert forall|k: int| 0 <= k < spans.len() implies {
        let (i, j) = #[trigger] spans[k];
        &&& 0 <= i < j <= s.len()
        &&& i > 0 ==> white_space(s[i - 1])
        &&& j < s.len() ==> white_space(s[j])
        &&& forall|m: int| i <= m < j ==> !white_space(#[trigger] s[m])
    } by {
        if k >= f {
            let p = inner[k - f];
            assert(spans[k] == (p.0 + n, p.1 + n));
            assert(0 <= p.0 < p.1 <= t.len());
            if p.0 > 0 {
                assert(t[p.0 - 1] == s[p.0 + n - 1]);
            } else if f == 1 {
                // the rest starts with white space, so no stretch starts there
                assert(t[0] == s[n]);
                assert(!white_space(t[0]));
            } else {
                assert(white_space(s[0]));
            }
            if p.1 < t.len() {
                assert(t[p.1] == s[p.1 + n]);
            }
            assert forall|m: int| p.0 + n <= m < p.1 + n implies !white_space(#[trigger] s[m]) by {
                assert(t[m - n] == s[m]);
            }
        }
    }
    assert forall|k: int, l: int| 0 <= k < l < spans.len() implies (#[trigger] spans[k]).1
        < (#[trigger] spans[l]).0 by {
        let q = inner[l - f];
        assert(spans[l] == (q.0 + n, q.1 + n));
        assert(0 <= q.0 < q.1 <= t.len());
        if k >= f {
            let p = inner[k - f];
            assert(spans[k] == (p.0 + n, p.1 + n));
        } else {
            assert(spans[k] == (0int, n));
            if q.0 == 0 {
                assert(t[0] == s[n]);
                assert(!white_space(t[0]));
            }
        }
    }
    assert forall|m: int| 0 <= m < s.len() && !white_space(#[trigger] s[m]) implies exists|k: int|
        0 <= k < spans.len() && (#[trigger] spans[k]).0 <= m < spans[k].1 by {
        if m < n {
            assert(f == 1);
            assert(spans[0] == (0int, n));
        } else {
            assert(t[m - n] == s[m]);
            let k = choose|k: int|
                0 <= k < inner.len() && (#[trigger] inner[k]).0 <= m - n < inner[k].1;
            assert(spans[k + f] == (inner[k].0 + n, inner[k].1 + n));
        }
    }
}

/// Law: the words of a text are its longest stretches without white space, in
/// order, and every character that is not white space is in one of them.
pub proof fn law_words_are_the_stretches(s: Seq<char>)
    ensures
        is_split(s, words(s)),
{
    let spans = lemma_word_spans(s);
    assert(are_stretches(s, spans));
}

/// Law: white space parts words and nothing else does: the words of two texts
/// with white space between them are the words of the one and then those of
/// the other, and a text without white space is one word.
pub proof fn law_white_space_parts_words(a: Seq<char>, c: char, b: Seq<char>)
    ensures
        white_space(c) ==> words(a.push(c) + b) == words(a) + words(b),
        a.len() > 0 && (forall|i: int| 0 <= i < a.len() ==> !white_space(#[trigger] a[i]))
            ==> words(a) == seq![a],
    decreases a.len(),
{
    let all = a.push(c) + b;
    if a.len() > 0 && (forall|i: int| 0 <= i < a.len() ==> !white_space(#[trigger] a[i])) {
        lemma_word_len(a, a.len() as int);
        assert(!white_space(a[0]));
        assert(a.take(a.len() as int) =~= a);
        assert(words(a.skip(a.len() as int)) =~= seq![]);
        assert(words(a) =~= seq![a]);
    }
    if white_space(c) {
        if a.len() == 0 {
            assert(all.first() == c);
            assert(all.drop_first() =~= b);
            assert(words(a) + words(b) =~= words(b));
        } else if white_space(a.first()) {
            assert(all.first() == a.first());
            assert(all.drop_first() =~= a.drop_first().push(c) + b);
            law_white_space_parts_words(a.drop_first(), c, b);
        } else {
            let n = word_len(a) as int;
            lemma_word_len_bounds(a);
            assert forall|k: int| 0 <= k < n implies !white_space(#[trigger] all[k]) by {
                assert(all[k] == a[k]);
            }
            assert(white_space(all[n]));
            lemma_word_len(all, n);
            assert(all.first() == a.first());
            assert(!white_space(a[0]));
            assert(all.take(n) =~= a.take(n));
            assert(all.skip(n) =~= a.skip(n).push(c) + b);
            law_white_space_parts_words(a.skip(n), c, b);
            assert(seq![a.take(n)] + (words(a.skip(n)) + words(b)) =~= words(a) + words(b));
        }
    }
}

/// The characters of all `parts`, one part behind the other.
pub open spec fn run_together(parts: Seq<Seq<char>>) -> Seq<char>
    decreases parts.len(),
{
    if parts.len() == 0 {
        seq![]
    } else {
        parts.first() + run_together(parts.drop_first())
    }
}

/// Law: the words hold the whole text but its white space: one behind the
/// other they are its characters that are not white space, in order.
pub proof fn law_words_hold_every_character(s: Seq<char>)
    ensures
        run_together(words(s)) == s.filter(|c: char| !white_space(c)),
    decreases s.len(),
{
    let dark = |c: char| !white_space(c);
    if s.len() == 0 {
        reveal(Seq::filter);
        assert(s.filter(dark) =~= seq![]);
    } else if white_space(s.first()) {
        let t = s.drop_first();
        law_words_hold_every_character(t);
        assert(s =~= seq![s.first()] + t);
        Seq::filter_distributes_over_add(seq![s.first()], t, dark);
        reveal_with_fuel(Seq::filter, 2);
        assert(seq![s.first()].drop_last() =~= seq![]);
        assert(seq![s.first()].filter(dark) =~= seq![]);
        assert(s.filter(dark) =~= t.filter(dark));
    } else {
        let n = word_len(s) as int;
        lemma_word_len_bounds(s);
        assert(!white_space(s[0]));
        let w = s.take(n);
        let t = s.skip(n);
        law_words_hold_every_character(t);
        assert(s =~= w + t);
        Seq::filter_distributes_over_add(w, t, dark);
        assert forall|i: int| 0 <= i < w.len() implies dark(#[trigger] w[i]) by {
            assert(w[i] == s[i]);
        }
        lemma_filter_keeps_all(w, dark);
        assert(words(s).drop_first() =~= words(t));
        assert(words(s).first() == w);
    }
}

proof fn lemma_filter_keeps_all(w: Seq<char>, keep: spec_fn(char) -> bool)
    requires
        forall|i: int| 0 <= i < w.len() ==> keep(#[trigger] w[i]),
    ensures
        w.filter(keep) == w,
    decreases w.len(),
{
    reveal(Seq::filter);
    if w.len() > 0 {
        assert(keep(w[w.len() - 1]));
        lemma_filter_keeps_all(w.drop_last(), keep);
        assert(w.drop_last().push(w.last()) =~= w);
    } else {
        assert(w.filter(keep) =~= w);
    }
}

/// Law: joining two lists is joining each and putting the separator between;
/// a single text is joined to itself, and no text to nothing.
pub proof fn law_joining_lists(a: Seq<Seq<char>>, b: Seq<Seq<char>>, sep: Seq<char>)
    ensures
        a.len() == 0 ==> joined(a, sep) == Seq::<char>::empty(),
        a.len() == 1 ==> joined(a, sep) == a[0],
        a.len() > 0 && b.len() > 0 ==> joined(a + b, sep) == joined(a, sep) + sep + joined(b, sep),
    decreases b.len(),
{
    if a.len() > 0 && b.len() > 0 {
        let all = a + b;
        assert(all.drop_last() =~= a + b.drop_last());
        assert(all.last() == b.last());
        if b.len() == 1 {
            assert(a + b.drop_last() =~= a);
        } else {
            law_joining_lists(a, b.drop_last(), sep);
            assert(joined(a, sep) + sep + joined(b.drop_last(), sep) + sep + b.last()
                =~= joined(a, sep) + sep + (joined(b.drop_last(), sep) + sep + b.last()));
        }
    }
}

/// The number that a text of decimal digits stands for.
pub open spec fn number_of(s: Seq<char>) -> int
    decreases s.len(),
{
    if s.len() == 0 {
        0
    } else {
        10 * number_of(s.drop_last()) + (s.last() as int - '0' as int)
    }
}

/// Law: the decimal of a number stands for that number. It is made of digits
/// alone, and starts with a zero only where it is nothing else.
pub proof fn law_decimal_reads_back(n: nat)
    ensures
        number_of(decimal(n)) == n,
        decimal(n).len() > 0,
        forall|i: int| 0 <= i < decimal(n).len() ==> '0' <= #[trigger] decimal(n)[i] <= '9',
        decimal(n)[0] == '0' ==> decimal(n).len() == 1,
    decreases n,
{
    if n < 10 {
        assert(decimal(n).drop_last() =~= seq![]);
        assert(number_of(seq![]) == 0);
    } else {
        law_decimal_reads_back(n / 10);
        let head = decimal(n / 10);
        assert(decimal(n).drop_last() =~= head);
        assert(decimal(n)[0] == head[0]);
        if head[0] == '0' {
            assert(head =~= seq!['0']);
            assert(number_of(head.drop_last()) == 0);
            assert(number_of(head) == 0);
        }
    }
}

/// Law: two texts are in the order of the first characters in which they
/// differ, and a text comes before its continuations.
pub proof fn law_order_is_by_the_first_difference(a: Seq<char>, b: Seq<char>, i: int)
    requires
        0 <= i <= a.len(),
        i <= b.len(),
        forall|k: int| 0 <= k < i ==> a[k] == b[k],
    ensures
        i < a.len() && i < b.len() && a[i] != b[i] ==> (ordered(a, b) <==> (a[i] as int) < (
        b[i] as int)),
        i == a.len() ==> ordered(a, b),
        i == b.len() && i < a.len() ==> !ordered(a, b),
{
    lemma_ordered_after_common(a, b, i);
}

/// Law: trimming takes away the white space at both ends and nothing else.
pub proof fn law_trimming(a: Seq<char>, m: Seq<char>, b: Seq<char>)
    requires
        forall|i: int| 0 <= i < a.len() ==> white_space(#[trigger] a[i]),
        forall|i: int| 0 <= i < b.len() ==> white_space(#[trigger] b[i]),
        m.len() > 0 ==> !white_space(m[0]) && !white_space(m.last()),
    ensures
        trimmed(a + m + b) == m,
        blank(a + m + b) <==> m.len() == 0,
{
    assert(trimmed(a + m + b) == trimmed(m)) by {
        lemma_trimmed_within_blank(a, m, b);
    }
    assert(trimmed(m) == m) by {
        lemma_trimmed_start_skips(m, 0);
        assert(m.skip(0) =~= m);
        lemma_trimmed_end_takes(m, m.len() as int);
        assert(m.take(m.len() as int) =~= m);
    }
    let s = a + m + b;
    if m.len() > 0 {
        assert(s[a.len() as int] == m[0]);
    } else {
        assert forall|i: int| 0 <= i < s.len() implies white_space(#[trigger] s[i]) by {
            if i < a.len() {
                assert(s[i] == a[i]);
            } else {
                assert(s[i] == b[i - a.len()]);
            }
        }
    }
}

} // verus!
