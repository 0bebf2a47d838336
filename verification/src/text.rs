//! Character-level helpers on strings: prefixes, whitespace trimming and
//! parsing of unsigned decimal numbers, each stated over `Seq<char>`.

use vstd::prelude::*;

verus! {

/// `p` is a prefix of `s`.
pub open spec fn has_prefix(s: Seq<char>, p: Seq<char>) -> bool {
    p.len() <= s.len() && s.subrange(0, p.len() as int) == p
}

/// The characters with the Unicode `White_Space` property, which is what
/// `char::is_whitespace` and `str::trim` go by.
pub open spec fn is_ws(c: char) -> bool {
    ||| c == '\t'
    ||| c == '\n'
    ||| c == '\u{0B}'
    ||| c == '\u{0C}'
    ||| c == '\r'
    ||| c == ' '
    ||| c == '\u{85}'
    ||| c == '\u{A0}'
    ||| c == '\u{1680}'
    ||| ('\u{2000}' <= c && c <= '\u{200A}')
    ||| c == '\u{2028}'
    ||| c == '\u{2029}'
    ||| c == '\u{202F}'
    ||| c == '\u{205F}'
    ||| c == '\u{3000}'
}

/// `s` without its leading whitespace.
pub open spec fn trim_start(s: Seq<char>) -> Seq<char>
    decreases s.len(),
{
    if s.len() > 0 && is_ws(s[0]) {
        trim_start(s.drop_first())
    } else {
        s
    }
}

/// `s` without its trailing whitespace.
pub open spec fn trim_end(s: Seq<char>) -> Seq<char>
    decreases s.len(),
{
    if s.len() > 0 && is_ws(s.last()) {
        trim_end(s.drop_last())
    } else {
        s
    }
}

/// `s` without leading and trailing whitespace.
pub open spec fn trim(s: Seq<char>) -> Seq<char> {
    trim_end(trim_start(s))
}

pub open spec fn is_digit(c: char) -> bool {
    '0' <= c && c <= '9'
}

pub open spec fn all_digits(d: Seq<char>) -> bool {
    forall|i: int| 0 <= i < d.len() ==> is_digit(#[trigger] d[i])
}

/// The number that the decimal digits `d` denote.
pub open spec fn digits_value(d: Seq<char>) -> nat
    decreases d.len(),
{
    if d.len() == 0 {
        0
    } else {
        digits_value(d.drop_last()) * 10 + ((d.last() as nat) - ('0' as nat)) as nat
    }
}

/// The digits of an unsigned decimal number: the text with one leading
/// `+` removed, if there is one.
pub open spec fn unsigned_digits(s: Seq<char>) -> Seq<char> {
    if s.len() > 0 && s[0] == '+' {
        s.drop_first()
    } else {
        s
    }
}

/// What parsing `s` as a `usize` gives: `Some(n)` when `s` is an optional
/// `+` followed by at least one decimal digit and nothing else, and the
/// number fits in a `usize`; `None` otherwise.
pub open spec fn parse_usize_spec(s: Seq<char>) -> Option<usize> {
    let d = unsigned_digits(s);
    if d.len() > 0 && all_digits(d) && digits_value(d) <= usize::MAX {
        Some(digits_value(d) as usize)
    } else {
        None
    }
}

proof fn lemma_digits_value_prefix_grows(d: Seq<char>, k: int)
    requires
        0 <= k <= d.len(),
        all_digits(d),
    ensures
        digits_value(d.subrange(0, k)) <= digits_value(d),
    decreases d.len() - k,
{
    if k < d.len() {
        lemma_digits_value_prefix_grows(d, k + 1);
        let p = d.subrange(0, k + 1);
        assert(p.drop_last() =~= d.subrange(0, k));
        assert(is_digit(d[k]));
    } else {
        assert(d.subrange(0, k) =~= d);
    }
}

/// Whether `c` is a whitespace character.
pub fn is_whitespace(c: char) -> (b: bool)
    ensures
        b == is_ws(c),
{
    c == '\t' || c == '\n' || c == '\u{0B}' || c == '\u{0C}' || c == '\r' || c == ' ' || c
        == '\u{85}' || c == '\u{A0}' || c == '\u{1680}' || ('\u{2000}' <= c && c <= '\u{200A}')
        || c == '\u{2028}' || c == '\u{2029}' || c == '\u{202F}' || c == '\u{205F}' || c
        == '\u{3000}'
}

/// Whether `s` begins with `p`.
pub fn starts_with(s: &str, p: &str) -> (b: bool)
    ensures
        b == has_prefix(s@, p@),
{
    let n = s.unicode_len();
    let m = p.unicode_len();
    if m > n {
        return false;
    }
    let mut i: usize = 0;
    while i < m
        invariant
            i <= m <= n,
            n == s@.len(),
            m == p@.len(),
            forall|j: int| 0 <= j < i ==> s@[j] == p@[j],
        decreases m - i,
    {
        if s.get_char(i) != p.get_char(i) {
            assert(s@.subrange(0, m as int)[i as int] != p@[i as int]);
            return false;
        }
        i = i + 1;
    }
    assert(s@.subrange(0, m as int) =~= p@);
    true
}

/// `s` with the prefix `p` removed, or `None` where `s` does not begin with `p`.
pub fn strip_prefix(s: &str, p: &str) -> (r: Option<String>)
    ensures
        match r {
            Some(rest) => has_prefix(s@, p@) && rest@ == s@.subrange(p@.len() as int, s@.len() as int),
            None => !has_prefix(s@, p@),
        },
{
    if starts_with(s, p) {
        let n = s.unicode_len();
        let m = p.unicode_len();
        let rest = s.substring_char(m, n);
        Some(rest.to_owned())
    } else {
        None
    }
}

/// `s` without leading and trailing whitespace.
pub fn trim_str(s: &str) -> (r: String)
    ensures
        r@ == trim(s@),
{
    let n = s.unicode_len();
    let mut i: usize = 0;
    assert(s@.subrange(0, n as int) =~= s@);
    while i < n && is_whitespace(s.get_char(i))
        invariant
            i <= n,
            n == s@.len(),
            trim_start(s@) == trim_start(s@.subrange(i as int, n as int)),
        decreases n - i,
    {
        let ghost sub = s@.subrange(i as int, n as int);
        assert(sub.drop_first() =~= s@.subrange(i + 1, n as int));
        i = i + 1;
    }
    assert(trim_start(s@) == s@.subrange(i as int, n as int));
    let mut j: usize = n;
    while j > i && is_whitespace(s.get_char(j - 1))
        invariant
            i <= j <= n,
            n == s@.len(),
            trim(s@) == trim_end(s@.subrange(i as int, j as int)),
        decreases j,
    {
        let ghost sub = s@.subrange(i as int, j as int);
        assert(sub.drop_last() =~= s@.subrange(i as int, j - 1));
        j = j - 1;
    }
    assert(trim(s@) == s@.subrange(i as int, j as int));
    s.substring_char(i, j).to_owned()
}

/// Parses `s` as a `usize` in decimal, as `str::parse::<usize>` does: an
/// optional `+`, then one or more digits, with no other character and no
/// overflow.
pub fn parse_usize(s: &str) -> (r: Option<usize>)
    ensures
        r == parse_usize_spec(s@),
{
    let n = s.unicode_len();
    let ghost d = unsigned_digits(s@);
    let mut i: usize = 0;
    if n > 0 && s.get_char(0) == '+' {
        i = 1;
    }
    assert(d =~= s@.subrange(i as int, n as int));
    if i == n {
        return None;
    }
    let start = i;
    let mut v: usize = 0;
    while i < n
        invariant
            start <= i <= n,
            n == s@.len(),
            d == s@.subrange(start as int, n as int),
            d == unsigned_digits(s@),
            all_digits(s@.subrange(start as int, i as int)),
            v == digits_value(s@.subrange(start as int, i as int)),
        decreases n - i,
    {
        let c = s.get_char(i);
        let ghost k = i - start;
        let ghost pre = s@.subrange(start as int, i + 1);
        assert(pre.drop_last() =~= s@.subrange(start as int, i as int));
        assert(d[k] == c);
        if !('0' <= c && c <= '9') {
            assert(!all_digits(d));
            return None;
        }
        let digit: u32 = (c as u32) - ('0' as u32);
        let nv: u128 = (v as u128) * 10 + (digit as u128);
        assert(nv == digits_value(pre));
        if nv > usize::MAX as u128 {
            assert(pre =~= d.subrange(0, k + 1));
            proof {
                if all_digits(d) {
                    lemma_digits_value_prefix_grows(d, k + 1);
                }
            }
            return None;
        }
        v = nv as usize;
        i = i + 1;
    }
    assert(s@.subrange(start as int, n as int) =~= d);
    Some(v)
}

/// The index of the first newline in `s` at or after `i`, or the length of
/// `s` when there is none.
pub open spec fn first_newline_from(s: Seq<char>, i: int) -> int
    decreases s.len() - i,
{
    if i < 0 || i >= s.len() {
        s.len() as int
    } else if s[i] == '\n' {
        i
    } else {
        first_newline_from(s, i + 1)
    }
}

proof fn lemma_first_newline_from(s: Seq<char>, i: int, b: int)
    requires
        0 <= i <= b <= s.len(),
        forall|j: int| i <= j < b ==> s[j] != '\n',
        b == s.len() || s[b] == '\n',
    ensures
        first_newline_from(s, i) == b,
    decreases b - i,
{
    if i < b {
        lemma_first_newline_from(s, i + 1, b);
    }
}

/// `t` without one carriage return at its end, if it has one.
pub open spec fn strip_cr(t: Seq<char>) -> Seq<char> {
    if t.len() > 0 && t.last() == '\r' {
        t.drop_last()
    } else {
        t
    }
}

/// The lines of `s`, as `str::lines` gives them: split after each newline,
/// the newline removed together with a carriage return just before it; the
/// last line need not end with a newline, and no empty line follows a final
/// newline.
pub open spec fn lines_spec(s: Seq<char>) -> Seq<Seq<char>>
    decreases s.len(),
{
    if s.len() == 0 {
        Seq::empty()
    } else {
        let k = first_newline_from(s, 0);
        if k >= s.len() || k < 0 {
            seq![s]
        } else {
            seq![strip_cr(s.subrange(0, k))] + lines_spec(s.subrange(k + 1, s.len() as int))
        }
    }
}

/// `t` without one carriage return at its end, if it has one.
fn strip_cr_str(t: &str) -> (r: String)
    ensures
        r@ == strip_cr(t@),
{
    let n = t.unicode_len();
    if n > 0 && t.get_char(n - 1) == '\r' {
        t.substring_char(0, n - 1).to_owned()
    } else {
        t.to_owned()
    }
}

/// The lines of `text`, as `str::lines` gives them.
pub fn split_lines(text: &str) -> (r: Vec<String>)
    ensures
        r@.map_values(|l: String| l@) == lines_spec(text@),
{
    let n = text.unicode_len();
    let mut lines: Vec<String> = Vec::new();
    let mut start: usize = 0;
    let mut i: usize = 0;
    assert(text@.subrange(0, n as int) =~= text@);
    while i < n
        invariant
            start <= i <= n,
            n == text@.len(),
            forall|j: int| start <= j < i ==> text@[j] != '\n',
            lines_spec(text@) == lines@.map_values(|l: String| l@) + lines_spec(text@.subrange(start as int, n as int)),
        decreases n - i,
    {
        if text.get_char(i) == '\n' {
            let ghost t = text@.subrange(start as int, n as int);
            proof {
                lemma_first_newline_from(t, 0, i - start);
                assert(t.subrange(0, i - start) =~= text@.subrange(start as int, i as int));
                assert(t.subrange(i - start + 1, t.len() as int) =~= text@.subrange(i + 1, n as int));
            }
            let piece = strip_cr_str(text.substring_char(start, i));
            let ghost before = lines@.map_values(|l: String| l@);
            lines.push(piece);
            assert(lines@.map_values(|l: String| l@) =~= before.push(strip_cr(text@.subrange(start as int, i as int))));
            assert(lines_spec(t) == seq![strip_cr(text@.subrange(start as int, i as int))] + lines_spec(
                text@.subrange(i + 1, n as int),
            ));
            assert(lines_spec(text@) =~= lines@.map_values(|l: String| l@) + lines_spec(text@.subrange(i + 1, n as int)));
            start = i + 1;
        }
        i = i + 1;
    }
    if start < n {
        let ghost t = text@.subrange(start as int, n as int);
        proof {
            lemma_first_newline_from(t, 0, t.len() as int);
        }
        let ghost before = lines@.map_values(|l: String| l@);
        lines.push(text.substring_char(start, n).to_owned());
        assert(lines@.map_values(|l: String| l@) =~= before.push(t));
        assert(lines_spec(text@) =~= lines@.map_values(|l: String| l@));
    } else {
        assert(text@.subrange(start as int, n as int) =~= Seq::<char>::empty());
        assert(lines_spec(text@) =~= lines@.map_values(|l: String| l@));
    }
    lines
}

/// `s` with every carriage return that stands just before a newline removed.
pub open spec fn drop_cr_before_lf(s: Seq<char>) -> Seq<char>
    decreases s.len(),
{
    if s.len() == 0 {
        s
    } else if s.len() >= 2 && s[0] == '\r' && s[1] == '\n' {
        drop_cr_before_lf(s.drop_first())
    } else {
        seq![s[0]] + drop_cr_before_lf(s.drop_first())
    }
}

/// The lines `lines`, each followed by a newline, one after another.
pub open spec fn join_lines(lines: Seq<Seq<char>>) -> Seq<char>
    decreases lines.len(),
{
    if lines.len() == 0 {
        Seq::empty()
    } else {
        lines[0] + seq!['\n'] + join_lines(lines.drop_first())
    }
}

/// `s` with no newline in it.
pub open spec fn no_newline(s: Seq<char>) -> bool {
    forall|j: int| 0 <= j < s.len() ==> s[j] != '\n'
}

proof fn lemma_first_newline_is_first(s: Seq<char>, i: int)
    requires
        0 <= i <= s.len(),
    ensures
        i <= first_newline_from(s, i) <= s.len(),
        forall|j: int| i <= j < first_newline_from(s, i) ==> s[j] != '\n',
        first_newline_from(s, i) < s.len() ==> s[first_newline_from(s, i)] == '\n',
    decreases s.len() - i,
{
    if i < s.len() && s[i] != '\n' {
        lemma_first_newline_is_first(s, i + 1);
    }
}

proof fn lemma_drop_cr_no_newline(p: Seq<char>)
    requires
        no_newline(p),
    ensures
        drop_cr_before_lf(p) == p,
    decreases p.len(),
{
    if p.len() > 0 {
        lemma_drop_cr_no_newline(p.drop_first());
        assert(seq![p[0]] + p.drop_first() =~= p);
    }
}

proof fn lemma_drop_cr_split(p: Seq<char>, r: Seq<char>)
    requires
        no_newline(p),
    ensures
        drop_cr_before_lf(p + seq!['\n'] + r) == strip_cr(p) + seq!['\n'] + drop_cr_before_lf(r),
    decreases p.len(),
{
    let s = p + seq!['\n'] + r;
    if p.len() == 0 {
        assert(s =~= seq!['\n'] + r);
        assert(s.drop_first() =~= r);
        assert(strip_cr(p) =~= Seq::<char>::empty());
        assert(seq!['\n'] + drop_cr_before_lf(r) =~= strip_cr(p) + seq!['\n'] + drop_cr_before_lf(r));
    } else {
        let q = p.drop_first();
        assert(s.drop_first() =~= q + seq!['\n'] + r);
        lemma_drop_cr_split(q, r);
        if p[0] == '\r' && q.len() == 0 {
            assert(s[1] == '\n');
            assert(strip_cr(p) =~= Seq::<char>::empty());
            assert(strip_cr(q) =~= Seq::<char>::empty());
        } else {
            assert(s[0] == p[0]);
            assert(q.len() > 0 ==> s[1] == q[0] && q[0] != '\n');
            if q.len() > 0 {
                assert(p.last() == q.last());
                if q.last() == '\r' {
                    assert(strip_cr(p) =~= seq![p[0]] + strip_cr(q));
                } else {
                    assert(strip_cr(p) =~= seq![p[0]] + strip_cr(q));
                }
            } else {
                assert(strip_cr(p) =~= seq![p[0]] + strip_cr(q));
            }
            assert(seq![p[0]] + (strip_cr(q) + seq!['\n'] + drop_cr_before_lf(r)) =~= strip_cr(p) + seq!['\n']
                + drop_cr_before_lf(r));
        }
    }
}

/// The lines of a text give the text back: each line followed by a newline,
/// one after another, is the text itself, less the carriage returns that
/// stood before newlines and with a newline added at the end when it had
/// none. So no character is dropped, added or moved, and every line is the
/// text between two newlines as it stands.
pub proof fn law_lines_give_back_text(s: Seq<char>)
    ensures
        join_lines(lines_spec(s)) == (if s.len() == 0 {
            Seq::<char>::empty()
        } else if s.last() == '\n' {
            drop_cr_before_lf(s)
        } else {
            drop_cr_before_lf(s) + seq!['\n']
        }),
        forall|i: int| 0 <= i < lines_spec(s).len() ==> no_newline(#[trigger] lines_spec(s)[i]),
    decreases s.len(),
{
    if s.len() > 0 {
        lemma_first_newline_is_first(s, 0);
        let k = first_newline_from(s, 0);
        if k >= s.len() {
            assert(no_newline(s));
            lemma_drop_cr_no_newline(s);
            assert(lines_spec(s) == seq![s]);
            assert(seq![s].drop_first() =~= Seq::<Seq<char>>::empty());
            assert(join_lines(Seq::<Seq<char>>::empty()) == Seq::<char>::empty());
            assert(seq![s][0] == s);
            assert(join_lines(seq![s]) == s + seq!['\n'] + Seq::<char>::empty());
            assert(join_lines(seq![s]) =~= s + seq!['\n']);
        } else {
            let p = s.subrange(0, k);
            let r = s.subrange(k + 1, s.len() as int);
            assert(s =~= p + seq!['\n'] + r);
            assert(no_newline(p));
            law_lines_give_back_text(r);
            lemma_drop_cr_split(p, r);
            let ls = lines_spec(s);
            assert(ls == seq![strip_cr(p)] + lines_spec(r));
            assert(ls.drop_first() =~= lines_spec(r));
            assert(ls[0] == strip_cr(p));
            assert(join_lines(ls) == strip_cr(p) + seq!['\n'] + join_lines(lines_spec(r)));
            if r.len() == 0 {
                assert(s.last() == '\n');
                assert(drop_cr_before_lf(r) =~= Seq::<char>::empty());
                assert(join_lines(ls) =~= strip_cr(p) + seq!['\n'] + drop_cr_before_lf(r));
            } else {
                assert(s.last() == r.last());
                if r.last() == '\n' {
                    assert(join_lines(ls) =~= strip_cr(p) + seq!['\n'] + drop_cr_before_lf(r));
                } else {
                    assert(join_lines(ls) =~= strip_cr(p) + seq!['\n'] + drop_cr_before_lf(r) + seq!['\n']);
                }
            }
            assert forall|i: int| 0 <= i < ls.len() implies no_newline(#[trigger] ls[i]) by {
                if i == 0 {
                    assert(no_newline(strip_cr(p)));
                } else {
                    assert(ls[i] == lines_spec(r)[i - 1]);
                }
            }
        }
    }
}

proof fn lemma_trim_start_shape(s: Seq<char>)
    ensures
        exists|a: int|
            0 <= a <= s.len() && trim_start(s) == s.subrange(a, s.len() as int) && (forall|i: int|
                0 <= i < a ==> is_ws(#[trigger] s[i])) && (a < s.len() ==> !is_ws(s[a])),
    decreases s.len(),
{
    if s.len() > 0 && is_ws(s[0]) {
        let t = s.drop_first();
        lemma_trim_start_shape(t);
        let a = choose|a: int|
            0 <= a <= t.len() && trim_start(t) == t.subrange(a, t.len() as int) && (forall|i: int|
                0 <= i < a ==> is_ws(#[trigger] t[i])) && (a < t.len() ==> !is_ws(t[a]));
        assert(t.subrange(a, t.len() as int) =~= s.subrange(a + 1, s.len() as int));
        assert forall|i: int| 0 <= i < a + 1 implies is_ws(#[trigger] s[i]) by {
            if i > 0 {
                assert(s[i] == t[i - 1]);
            }
        }
    } else {
        assert(s.subrange(0, s.len() as int) =~= s);
    }
}

proof fn lemma_trim_end_shape(s: Seq<char>)
    ensures
        exists|b: int|
            0 <= b <= s.len() && trim_end(s) == s.subrange(0, b) && (forall|i: int|
                b <= i < s.len() ==> is_ws(#[trigger] s[i])) && (b > 0 ==> !is_ws(s[b - 1])),
    decreases s.len(),
{
    if s.len() > 0 && is_ws(s.last()) {
        let t = s.drop_last();
        lemma_trim_end_shape(t);
        let b = choose|b: int|
            0 <= b <= t.len() && trim_end(t) == t.subrange(0, b) && (forall|i: int|
                b <= i < t.len() ==> is_ws(#[trigger] t[i])) && (b > 0 ==> !is_ws(t[b - 1]));
        assert(t.subrange(0, b) =~= s.subrange(0, b));
        assert forall|i: int| b <= i < s.len() implies is_ws(#[trigger] s[i]) by {
            if i < t.len() {
                assert(s[i] == t[i]);
            }
        }
    } else {
        assert(s.subrange(0, s.len() as int) =~= s);
    }
}

/// Trimming removes whitespace at both ends and nothing else: what is left
/// is the text between some whitespace at its start and some at its end,
/// and it neither begins nor ends with whitespace.
pub proof fn law_trim_removes_only_outer_whitespace(s: Seq<char>)
    ensures
        exists|a: int, b: int|
            0 <= a <= b <= s.len() && trim(s) == s.subrange(a, b) && (forall|i: int|
                0 <= i < a ==> is_ws(#[trigger] s[i])) && (forall|i: int| b <= i < s.len() ==> is_ws(#[trigger] s[i]))
                && (a < b ==> !is_ws(s[a]) && !is_ws(s[b - 1])),
{
    lemma_trim_start_shape(s);
    let a = choose|a: int|
        0 <= a <= s.len() && trim_start(s) == s.subrange(a, s.len() as int) && (forall|i: int|
            0 <= i < a ==> is_ws(#[trigger] s[i])) && (a < s.len() ==> !is_ws(s[a]));
    let t = s.subrange(a, s.len() as int);
    lemma_trim_end_shape(t);
    let b = choose|b: int|
        0 <= b <= t.len() && trim_end(t) == t.subrange(0, b) && (forall|i: int|
            b <= i < t.len() ==> is_ws(#[trigger] t[i])) && (b > 0 ==> !is_ws(t[b - 1]));
    assert(t.subrange(0, b) =~= s.subrange(a, a + b));
    assert forall|i: int| a + b <= i < s.len() implies is_ws(#[trigger] s[i]) by {
        assert(s[i] == t[i - a]);
    }
    if b > 0 {
        assert(s[a] == t[0]);
        assert(s[a + b - 1] == t[b - 1]);
        if b == t.len() {
        } else {
        }
        assert(!is_ws(t[0]));
    }
    assert(0 <= a <= a + b <= s.len() && trim(s) == s.subrange(a, a + b));
}

/// Parsing reads decimal digits: nothing, a lone `+`, or any character
/// other than a digit (after one optional leading `+`) gives no number; a
/// single digit gives its value; one more digit at the end multiplies the
/// number by ten and adds that digit, as long as the result fits; and a
/// leading `+` changes nothing.
pub proof fn law_parse_usize_reads_decimal(d: Seq<char>, c: char)
    ensures
        parse_usize_spec(Seq::empty()) is None,
        parse_usize_spec(seq!['+']) is None,
        (exists|i: int| 0 <= i < d.len() && !is_digit(#[trigger] d[i])) ==> parse_usize_spec(seq!['+'] + d) is None,
        d.len() > 0 && d[0] != '+' && (exists|i: int| 0 <= i < d.len() && !is_digit(#[trigger] d[i]))
            ==> parse_usize_spec(d) is None,
        d.len() > 0 && d[0] != '+' ==> parse_usize_spec(seq!['+'] + d) == parse_usize_spec(d),
        is_digit(c) ==> parse_usize_spec(seq![c]) == Some(((c as nat) - ('0' as nat)) as usize),
        is_digit(c) && d.len() > 0 && d[0] != '+' && parse_usize_spec(d) is Some && parse_usize_spec(d)->0 * 10
            + ((c as nat) - ('0' as nat)) <= usize::MAX ==> parse_usize_spec(d.push(c)) == Some(
            (parse_usize_spec(d)->0 * 10 + ((c as nat) - ('0' as nat))) as usize,
        ),
        is_digit(c) && d.len() > 0 && d[0] != '+' && parse_usize_spec(d) is Some && parse_usize_spec(d)->0 * 10
            + ((c as nat) - ('0' as nat)) > usize::MAX ==> parse_usize_spec(d.push(c)) is None,
{
    assert((seq!['+'] + d).drop_first() =~= d);
    assert(seq![c].drop_last() =~= Seq::<char>::empty());
    if is_digit(c) {
        let one = seq![c];
        assert(unsigned_digits(one) == one);
        assert(all_digits(one));
        assert(digits_value(one.drop_last()) == 0);
        assert(digits_value(one) == ((c as nat) - ('0' as nat)) as nat);
    }
    if is_digit(c) && d.len() > 0 && d[0] != '+' && parse_usize_spec(d) is Some {
        let e = d.push(c);
        assert(e.drop_last() =~= d);
        assert(e[0] == d[0]);
        assert forall|i: int| 0 <= i < e.len() implies is_digit(#[trigger] e[i]) by {
            if i < d.len() {
                assert(e[i] == d[i]);
            }
        }
    }
}

} // verus!
