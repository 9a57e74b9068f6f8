use unicode_width::UnicodeWidthStr;
use vstd::prelude::*;

verus! {

broadcast use vstd::string::group_string_axioms;

// ---------------------------------------------------------------------------
// Names for what std and unicode-width compute on text
// ---------------------------------------------------------------------------

/// The lower-case form of a string, as `str::to_lowercase` computes it.
pub uninterp spec fn lowercase(s: Seq<char>) -> Seq<char>;

/// The number of terminal columns a string occupies, as
/// `UnicodeWidthStr::width` of unicode-width computes it.
pub uninterp spec fn display_width(s: Seq<char>) -> usize;

/// Whether every character of `s` is ASCII.
pub open spec fn is_ascii_text(s: Seq<char>) -> bool {
    forall|i: int| 0 <= i < s.len() ==> (#[trigger] s[i] as int) < 128
}

/// Whether `l` is the ASCII lower-case form of `c`: A to Z become a to z,
/// every other character stays.
pub open spec fn ascii_lowered(c: char, l: char) -> bool {
    if 'A' <= c && c <= 'Z' {
        l as int == c as int + 32
    } else {
        l == c
    }
}

/// Whether `lowercase` of `s` is its ASCII lower-case form, character by
/// character (what `to_lowercase` gives for ASCII text).
pub open spec fn lowers_ascii(s: Seq<char>) -> bool {
    &&& lowercase(s).len() == s.len()
    &&& forall|i: int| 0 <= i < s.len() ==> ascii_lowered(#[trigger] s[i], lowercase(s)[i])
}

/// Whether two characters are the same, letter case of A to Z aside.
pub open spec fn ascii_case_twins(a: char, b: char) -> bool {
    ||| a == b
    ||| 'A' <= a && a <= 'Z' && b as int == a as int + 32
    ||| 'A' <= b && b <= 'Z' && a as int == b as int + 32
}

/// Whether two texts are the same, letter case of A to Z aside.
pub open spec fn same_ignoring_ascii_case(a: Seq<char>, b: Seq<char>) -> bool {
    &&& a.len() == b.len()
    &&& forall|i: int| 0 <= i < a.len() ==> ascii_case_twins(#[trigger] a[i], b[i])
}

/// Calls `str::to_lowercase`: claims that the result depends on the
/// characters of `s` alone, and that on ASCII text it lower-cases exactly
/// the letters A to Z, character by character (the Unicode lower-case
/// mapping of ASCII, as std documents for `to_lowercase` and
/// `to_ascii_lowercase`). What it does to other text is left unsaid.
#[verifier::external_body]
pub(crate) fn to_lowercase(s: &str) -> (r: String)
    ensures
        r@ == lowercase(s@),
        is_ascii_text(s@) ==> r@.len() == s@.len()
            && forall|i: int| 0 <= i < s@.len() ==> ascii_lowered(#[trigger] s@[i], r@[i]),
{
    s.to_lowercase()
}

/// Calls `UnicodeWidthStr::width` of unicode-width: claims that the column
/// count depends on the characters of `s` alone.
#[verifier::external_body]
pub(crate) fn text_width(s: &str) -> (r: usize)
    ensures
        r == display_width(s@),
{
    s.width()
}

// ---------------------------------------------------------------------------
// Characters
// ---------------------------------------------------------------------------

/// Whether a character has the Unicode `White_Space` property (the code
/// points listed in PropList.txt), which is what `char::is_whitespace` and
/// `str::trim` go by.
pub open spec fn white_space(c: char) -> bool {
    ||| '\u{9}' <= c && c <= '\u{d}'
    ||| c == ' '
    ||| c == '\u{85}'
    ||| c == '\u{a0}'
    ||| c == '\u{1680}'
    ||| '\u{2000}' <= c && c <= '\u{200a}'
    ||| c == '\u{2028}'
    ||| c == '\u{2029}'
    ||| c == '\u{202f}'
    ||| c == '\u{205f}'
    ||| c == '\u{3000}'
}

/// Whether a character is white space, as `char::is_whitespace` decides.
pub fn is_white_space(c: char) -> (r: bool)
    ensures
        r == white_space(c),
{
    ('\u{9}' <= c && c <= '\u{d}') || c == ' ' || c == '\u{85}' || c == '\u{a0}' || c == '\u{1680}'
        || ('\u{2000}' <= c && c <= '\u{200a}') || c == '\u{2028}' || c == '\u{2029}'
        || c == '\u{202f}' || c == '\u{205f}' || c == '\u{3000}'
}

/// The characters of a string slice, in order.
pub fn chars_of(s: &str) -> (r: Vec<char>)
    ensures
        r@ == s@,
{
    let mut out: Vec<char> = Vec::new();
    for c in it: s.chars()
        invariant
            out@ == it.seq().take(it.index() as int),
    {
        out.push(c);
    }
    out
}

// ---------------------------------------------------------------------------
// Trimming
// ---------------------------------------------------------------------------

/// `s` without its leading white space.
pub open spec fn trim_start(s: Seq<char>) -> Seq<char>
    decreases s.len(),
{
    if s.len() > 0 && white_space(s[0]) {
        trim_start(s.drop_first())
    } else {
        s
    }
}

/// `s` without its trailing white space.
pub open spec fn trim_end(s: Seq<char>) -> Seq<char>
    decreases s.len(),
{
    if s.len() > 0 && white_space(s.last()) {
        trim_end(s.drop_last())
    } else {
        s
    }
}

/// `s` without leading and trailing white space.
pub open spec fn trimmed(s: Seq<char>) -> Seq<char> {
    trim_end(trim_start(s))
}

/// Removes leading and trailing white space, as `str::trim` does.
pub fn trim(s: &str) -> (r: &str)
    ensures
        r@ == trimmed(s@),
{
    let v = chars_of(s);
    let n = v.len();
    let mut i: usize = 0;
    assert(s@.subrange(0, n as int) =~= s@);
    while i < n && is_white_space(v[i])
        invariant
            i <= n,
            n == s@.len(),
            v@ == s@,
            trim_start(s@) == trim_start(s@.subrange(i as int, n as int)),
        decreases n - i,
    {
        assert(s@.subrange(i as int, n as int).drop_first() =~= s@.subrange(i + 1, n as int));
        i = i + 1;
    }
    assert(trim_start(s@) == s@.subrange(i as int, n as int));
    let mut j: usize = n;
    while j > i && is_white_space(v[j - 1])
        invariant
            i <= j <= n,
            n == s@.len(),
            v@ == s@,
            trim_start(s@) == s@.subrange(i as int, n as int),
            trimmed(s@) == trim_end(s@.subrange(i as int, j as int)),
        decreases j - i,
    {
        assert(s@.subrange(i as int, j as int).drop_last() =~= s@.subrange(i as int, j - 1));
        j = j - 1;
    }
    assert(trimmed(s@) == s@.subrange(i as int, j as int));
    s.substring_char(i, j)
}

/// Whether `s` holds nothing but white space (or nothing at all).
pub fn is_blank(s: &str) -> (r: bool)
    ensures
        r == (trimmed(s@).len() == 0),
{
    let t = trim(s);
    t.unicode_len() == 0
}

// ---------------------------------------------------------------------------
// Substrings and order
// ---------------------------------------------------------------------------

/// Whether `needle` occurs as a contiguous part of `hay`.
pub open spec fn occurs_in(needle: Seq<char>, hay: Seq<char>) -> bool {
    exists|i: int|
        0 <= i && i + needle.len() <= hay.len() && #[trigger] hay.subrange(i, i + needle.len())
            == needle
}

/// Whether `needle` occurs in `hay`, as `str::contains` with a string pattern decides it.
pub fn contains_text(hay: &str, needle: &str) -> (r: bool)
    ensures
        r == occurs_in(needle@, hay@),
{
    let h = chars_of(hay);
    let k = chars_of(needle);
    let hn = h.len();
    let kn = k.len();
    if kn > hn {
        assert(!occurs_in(needle@, hay@));
        return false;
    }
    let mut i: usize = 0;
    while i <= hn - kn
        invariant
            h@ == hay@,
            k@ == needle@,
            hn == h@.len(),
            kn == k@.len(),
            kn <= hn,
            i <= hn - kn + 1,
            forall|p: int| 0 <= p < i ==> #[trigger] hay@.subrange(p, p + kn) != needle@,
        decreases hn - i,
    {
        let mut j: usize = 0;
        let mut same = true;
        while j < kn
            invariant
                h@ == hay@,
                k@ == needle@,
                hn == h@.len(),
                kn == k@.len(),
                i + kn <= hn,
                j <= kn,
                same == (forall|q: int| 0 <= q < j ==> h@[i + q] == k@[q]),
            decreases kn - j,
        {
            if h[i + j] != k[j] {
                same = false;
            }
            j = j + 1;
        }
        if same {
            assert(hay@.subrange(i as int, i + kn) =~= needle@);
            return true;
        }
        assert(hay@.subrange(i as int, i + kn) != needle@) by {
            let q = choose|q: int| 0 <= q < kn && h@[i + q] != k@[q];
            assert(hay@.subrange(i as int, i + kn)[q] == h@[i + q]);
        }
        i = i + 1;
    }
    assert forall|p: int|
        0 <= p && p + needle@.len() <= hay@.len() implies #[trigger] hay@.subrange(
        p,
        p + needle@.len(),
    ) != needle@ by {
        assert(p < i);
    }
    false
}

/// Lexicographic order of character sequences by code point, which is the
/// order of `String` (its UTF-8 bytes compare the same way).
pub open spec fn seq_less(a: Seq<char>, b: Seq<char>) -> bool
    decreases a.len(),
{
    if a.len() == 0 {
        b.len() > 0
    } else if b.len() == 0 {
        false
    } else if a[0] != b[0] {
        (a[0] as int) < (b[0] as int)
    } else {
        seq_less(a.drop_first(), b.drop_first())
    }
}

/// `seq_less` is irreflexive.
pub proof fn lemma_seq_less_irreflexive(a: Seq<char>)
    ensures
        !seq_less(a, a),
    decreases a.len(),
{
    if a.len() > 0 {
        lemma_seq_less_irreflexive(a.drop_first());
    }
}

/// `seq_less` is transitive.
pub proof fn lemma_seq_less_transitive(a: Seq<char>, b: Seq<char>, c: Seq<char>)
    requires
        seq_less(a, b),
        seq_less(b, c),
    ensures
        seq_less(a, c),
    decreases a.len(),
{
    if a.len() > 0 && b.len() > 0 && c.len() > 0 && a[0] == b[0] && b[0] == c[0] {
        lemma_seq_less_transitive(a.drop_first(), b.drop_first(), c.drop_first());
    }
}

/// Two different sequences are ordered one way or the other.
pub proof fn lemma_seq_less_total(a: Seq<char>, b: Seq<char>)
    ensures
        a == b || seq_less(a, b) || seq_less(b, a),
    decreases a.len(),
{
    if a.len() > 0 && b.len() > 0 && a[0] == b[0] {
        lemma_seq_less_total(a.drop_first(), b.drop_first());
        if a.drop_first() == b.drop_first() {
            assert(a =~= seq![a[0]] + a.drop_first());
            assert(b =~= seq![b[0]] + b.drop_first());
        }
    } else if a.len() == 0 && b.len() == 0 {
        assert(a =~= b);
    } else if a.len() > 0 && b.len() > 0 {
        assert(a[0] as int != b[0] as int);
    }
}

/// Whether `a` comes before `b` in the order of strings.
pub fn text_less(a: &str, b: &str) -> (r: bool)
    ensures
        r == seq_less(a@, b@),
{
    let x = chars_of(a);
    let y = chars_of(b);
    let mut i: usize = 0;
    assert(a@.subrange(0, a@.len() as int) =~= a@);
    assert(b@.subrange(0, b@.len() as int) =~= b@);
    while i < x.len() && i < y.len() && x[i] == y[i]
        invariant
            x@ == a@,
            y@ == b@,
            i <= x@.len(),
            i <= y@.len(),
            seq_less(a@, b@) == seq_less(a@.subrange(i as int, a@.len() as int), b@.subrange(i as int, b@.len() as int)),
        decreases x.len() - i,
    {
        assert(a@.subrange(i as int, a@.len() as int).drop_first() =~= a@.subrange(i + 1, a@.len() as int));
        assert(b@.subrange(i as int, b@.len() as int).drop_first() =~= b@.subrange(i + 1, b@.len() as int));
        i = i + 1;
    }
    if i == x.len() {
        i < y.len()
    } else if i == y.len() {
        false
    } else {
        x[i] < y[i]
    }
}

// ---------------------------------------------------------------------------
// Building text
// ---------------------------------------------------------------------------

/// The character of a decimal digit.
pub open spec fn digit_char(d: nat) -> char {
    if d == 0 { '0' }
    else if d == 1 { '1' }
    else if d == 2 { '2' }
    else if d == 3 { '3' }
    else if d == 4 { '4' }
    else if d == 5 { '5' }
    else if d == 6 { '6' }
    else if d == 7 { '7' }
    else if d == 8 { '8' }
    else { '9' }
}

/// The decimal notation of a natural number, without leading zeros.
pub open spec fn decimal(n: nat) -> Seq<char>
    decreases n,
{
    if n < 10 {
        seq![digit_char(n)]
    } else {
        decimal(n / 10).push(digit_char(n % 10))
    }
}

/// `s` written `n` times in a row.
pub open spec fn repeat_seq(s: Seq<char>, n: nat) -> Seq<char>
    decreases n,
{
    if n == 0 {
        Seq::empty()
    } else {
        repeat_seq(s, (n - 1) as nat) + s
    }
}

/// `a - b`, or 0 where `b` exceeds `a`.
pub open spec fn minus_or_zero(a: int, b: int) -> nat {
    if a > b { (a - b) as nat } else { 0 }
}

fn digit_text(d: u64) -> (r: &'static str)
    requires
        d < 10,
    ensures
        r@ == seq![digit_char(d as nat)],
{
    proof {
        reveal_strlit("0");
        reveal_strlit("1");
        reveal_strlit("2");
        reveal_strlit("3");
        reveal_strlit("4");
        reveal_strlit("5");
        reveal_strlit("6");
        reveal_strlit("7");
        reveal_strlit("8");
        reveal_strlit("9");
    }
    if d == 0 {
        "0"
    } else if d == 1 {
        "1"
    } else if d == 2 {
        "2"
    } else if d == 3 {
        "3"
    } else if d == 4 {
        "4"
    } else if d == 5 {
        "5"
    } else if d == 6 {
        "6"
    } else if d == 7 {
        "7"
    } else if d == 8 {
        "8"
    } else {
        "9"
    }
}

/// The decimal notation of `n`, as `u64::to_string` writes it.
pub fn decimal_text(n: u64) -> (r: String)
    ensures
        r@ == decimal(n as nat),
    decreases n,
{
    if n < 10 {
        String::from_str(digit_text(n))
    } else {
        let mut s = decimal_text(n / 10);
        s.append(digit_text(n % 10));
        s
    }
}

/// `unit` written `n` times in a row, as `str::repeat` does.
pub fn repeat_text(unit: &str, n: usize) -> (r: String)
    ensures
        r@ == repeat_seq(unit@, n as nat),
{
    let mut s = String::new();
    let mut i: usize = 0;
    while i < n
        invariant
            i <= n,
            s@ == repeat_seq(unit@, i as nat),
        decreases n - i,
    {
        s.append(unit);
        i = i + 1;
    }
    s
}

/// `text` followed by as many spaces as it takes to fill `width` columns
/// (none where the text is already that wide).
pub open spec fn padded(text: Seq<char>, width: usize) -> Seq<char> {
    text + repeat_seq(" "@, minus_or_zero(width as int, display_width(text) as int))
}

/// `shown` followed by as many spaces as it takes to fill `width` columns,
/// counting the columns of `visible`, the text that `shown` displays (which
/// may carry terminal colour codes besides).
pub open spec fn padded_shown(shown: Seq<char>, visible: Seq<char>, width: usize) -> Seq<char> {
    shown + repeat_seq(" "@, minus_or_zero(width as int, display_width(visible) as int))
}

/// Pads `shown` to `width` display columns, going by the width of the
/// `visible` text it displays.
pub fn pad_shown(shown: &str, visible: &str, width: usize) -> (r: String)
    ensures
        r@ == padded_shown(shown@, visible@, width),
{
    let w = text_width(visible);
    let pad_len: usize = if width > w { width - w } else { 0 };
    let mut s = String::from_str(shown);
    let spaces = repeat_text(" ", pad_len);
    s.append(spaces.as_str());
    s
}

/// Pads `text` with spaces to `width` display columns; a CJK character
/// counts as two columns.
pub fn pad(text: &str, width: usize) -> (r: String)
    ensures
        r@ == padded(text@, width),
{
    let w = text_width(text);
    let pad_len: usize = if width > w { width - w } else { 0 };
    let mut s = String::from_str(text);
    let spaces = repeat_text(" ", pad_len);
    s.append(spaces.as_str());
    s
}

// ---------------------------------------------------------------------------
// Answers
// ---------------------------------------------------------------------------

/// Whether `c` is `lower` or its ASCII upper-case form `upper`.
pub open spec fn either_case(c: char, lower: char, upper: char) -> bool {
    c == lower || c == upper
}

/// Whether an answer, trimmed and ASCII-lower-cased, is "y" or "yes".
pub open spec fn says_yes(answer: Seq<char>) -> bool {
    let a = trimmed(answer);
    ||| a.len() == 1 && either_case(a[0], 'y', 'Y')
    ||| a.len() == 3 && either_case(a[0], 'y', 'Y') && either_case(a[1], 'e', 'E') && either_case(a[2], 's', 'S')
}

/// Whether the answer to "update? [y/N]" accepts: "y" or "yes" in any
/// letter case, with white space around it allowed.
pub fn is_yes_answer(answer: &str) -> (r: bool)
    ensures
        r == says_yes(answer@),
{
    let a = chars_of(trim(answer));
    if a.len() == 1 {
        a[0] == 'y' || a[0] == 'Y'
    } else if a.len() == 3 {
        (a[0] == 'y' || a[0] == 'Y') && (a[1] == 'e' || a[1] == 'E') && (a[2] == 's' || a[2] == 'S')
    } else {
        false
    }
}

} // verus!
