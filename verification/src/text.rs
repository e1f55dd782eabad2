//! Character-level helpers over `str`, and the std text functions that the
//! library relies on.

use vstd::prelude::*;

verus! {

broadcast use vstd::seq_lib::group_seq_properties;

/// Whether a character has the Unicode `White_Space` property, as
/// `char::is_whitespace` decides it: tab to carriage return, space, next
/// line, no-break space, ogham space mark, the spaces from en quad to hair
/// space, line and paragraph separators, narrow no-break space, medium
/// mathematical space and ideographic space.
pub open spec fn char_is_whitespace(c: char) -> bool {
    ||| ('\u{9}' <= c && c <= '\u{d}')
    ||| c == ' '
    ||| c == '\u{85}'
    ||| c == '\u{a0}'
    ||| c == '\u{1680}'
    ||| ('\u{2000}' <= c && c <= '\u{200a}')
    ||| c == '\u{2028}'
    ||| c == '\u{2029}'
    ||| c == '\u{202f}'
    ||| c == '\u{205f}'
    ||| c == '\u{3000}'
}

/// Whether every character of `s` is ASCII.
pub open spec fn is_ascii_text(s: Seq<char>) -> bool {
    forall|i: int| 0 <= i < s.len() ==> (#[trigger] s[i] as u32) < 128
}

/// The upper-case form of an ASCII character: `a` to `z` become `A` to `Z`,
/// the others stay.
pub open spec fn ascii_upper(c: char) -> char {
    if 'a' <= c && c <= 'z' {
        ((c as u32) - 32) as char
    } else {
        c
    }
}

/// `s` with each character in its ASCII upper-case form.
pub open spec fn ascii_upper_text(s: Seq<char>) -> Seq<char> {
    s.map_values(|c: char| ascii_upper(c))
}

/// The Unicode uppercase mapping of a string, as `str::to_uppercase`
/// computes it.
pub uninterp spec fn uppercase_of(s: Seq<char>) -> Seq<char>;

/// `s` without its leading whitespace.
pub open spec fn trim_start_chars(s: Seq<char>) -> Seq<char>
    decreases s.len(),
{
    if s.len() > 0 && char_is_whitespace(s[0]) {
        trim_start_chars(s.drop_first())
    } else {
        s
    }
}

/// `s` without its trailing whitespace.
pub open spec fn trim_end_chars(s: Seq<char>) -> Seq<char>
    decreases s.len(),
{
    if s.len() > 0 && char_is_whitespace(s.last()) {
        trim_end_chars(s.drop_last())
    } else {
        s
    }
}

/// `s` without leading and trailing whitespace.
pub open spec fn trim_chars(s: Seq<char>) -> Seq<char> {
    trim_end_chars(trim_start_chars(s))
}

/// Whether `prefix` is a prefix of `s`.
pub open spec fn has_prefix(s: Seq<char>, prefix: Seq<char>) -> bool {
    prefix.len() <= s.len() && s.subrange(0, prefix.len() as int) == prefix
}

/// The pieces of `s` between occurrences of `sep`, as `str::split` with a
/// `char` pattern yields them (an empty `s` gives one empty piece).
pub open spec fn split_on(s: Seq<char>, sep: char) -> Seq<Seq<char>>
    decreases s.len(),
{
    if s.len() == 0 {
        seq![Seq::<char>::empty()]
    } else {
        let prev = split_on(s.drop_last(), sep);
        if s.last() == sep {
            prev.push(Seq::<char>::empty())
        } else {
            prev.update(prev.len() - 1, prev.last().push(s.last()))
        }
    }
}

pub proof fn lemma_split_on_nonempty(s: Seq<char>, sep: char)
    ensures
        split_on(s, sep).len() >= 1,
    decreases s.len(),
{
    if s.len() > 0 {
        lemma_split_on_nonempty(s.drop_last(), sep);
    }
}

/// The pieces of an ASCII text are ASCII.
pub proof fn lemma_split_on_ascii(s: Seq<char>, sep: char)
    requires
        is_ascii_text(s),
    ensures
        forall|k: int| 0 <= k < split_on(s, sep).len() ==> is_ascii_text(#[trigger] split_on(s, sep)[k]),
    decreases s.len(),
{
    if s.len() > 0 {
        let prev = split_on(s.drop_last(), sep);
        assert(is_ascii_text(s.drop_last())) by {
            assert forall|i: int| 0 <= i < s.drop_last().len() implies (#[trigger] s.drop_last()[i] as u32) < 128 by {
                assert(s.drop_last()[i] == s[i]);
            }
        }
        lemma_split_on_ascii(s.drop_last(), sep);
        lemma_split_on_nonempty(s.drop_last(), sep);
        let cur = split_on(s, sep);
        assert forall|k: int| 0 <= k < cur.len() implies is_ascii_text(#[trigger] cur[k]) by {
            if s.last() != sep && k == prev.len() - 1 {
                let piece = prev.last().push(s.last());
                assert(cur[k] == piece);
                assert forall|i: int| 0 <= i < piece.len() implies (#[trigger] piece[i] as u32) < 128 by {
                    if i < prev.last().len() {
                        assert(piece[i] == prev[k][i]);
                    } else {
                        assert(piece[i] == s[s.len() - 1]);
                    }
                }
            } else if k < prev.len() {
                assert(cur[k] == prev[k]);
            } else {
                assert(cur[k] == Seq::<char>::empty());
            }
        }
    }
}

/// Trimming an ASCII text leaves an ASCII text.
pub proof fn lemma_trim_ascii(s: Seq<char>)
    requires
        is_ascii_text(s),
    ensures
        is_ascii_text(trim_chars(s)),
{
    lemma_trim_start_ascii(s);
    lemma_trim_end_ascii(trim_start_chars(s));
}

proof fn lemma_trim_start_ascii(s: Seq<char>)
    requires
        is_ascii_text(s),
    ensures
        is_ascii_text(trim_start_chars(s)),
    decreases s.len(),
{
    if s.len() > 0 && char_is_whitespace(s[0]) {
        assert forall|i: int| 0 <= i < s.drop_first().len() implies (#[trigger] s.drop_first()[i] as u32) < 128 by {
            assert(s.drop_first()[i] == s[i + 1]);
        }
        lemma_trim_start_ascii(s.drop_first());
    }
}

proof fn lemma_trim_end_ascii(s: Seq<char>)
    requires
        is_ascii_text(s),
    ensures
        is_ascii_text(trim_end_chars(s)),
    decreases s.len(),
{
    if s.len() > 0 && char_is_whitespace(s.last()) {
        assert forall|i: int| 0 <= i < s.drop_last().len() implies (#[trigger] s.drop_last()[i] as u32) < 128 by {
            assert(s.drop_last()[i] == s[i]);
        }
        lemma_trim_end_ascii(s.drop_last());
    }
}

/// `a` and `b` are ASCII texts that differ at most in the case of letters.
pub open spec fn same_but_case(a: Seq<char>, b: Seq<char>) -> bool {
    &&& a.len() == b.len()
    &&& is_ascii_text(a)
    &&& is_ascii_text(b)
    &&& forall|i: int| 0 <= i < a.len() ==> ascii_upper(#[trigger] a[i]) == ascii_upper(b[i])
}

/// ASCII characters with the same upper-case form are both `c` or neither,
/// for a `c` that is no letter.
pub proof fn lemma_same_upper_non_letter(x: char, y: char, c: char)
    requires
        (x as u32) < 128,
        (y as u32) < 128,
        ascii_upper(x) == ascii_upper(y),
        !('a' <= c && c <= 'z'),
        !('A' <= c && c <= 'Z'),
    ensures
        x == c <==> y == c,
{
    if 'a' <= x && x <= 'z' {
        assert(ascii_upper(x) as u32 == (x as u32) - 32);
    }
    if 'a' <= y && y <= 'z' {
        assert(ascii_upper(y) as u32 == (y as u32) - 32);
    }
}

/// ASCII whitespace is tab to carriage return and space.
proof fn lemma_ascii_whitespace(x: char)
    requires
        (x as u32) < 128,
    ensures
        char_is_whitespace(x) <==> (('\u{9}' <= x && x <= '\u{d}') || x == ' '),
{
}

/// ASCII characters with the same upper-case form are both whitespace or
/// neither.
pub proof fn lemma_same_upper_whitespace(x: char, y: char)
    requires
        (x as u32) < 128,
        (y as u32) < 128,
        ascii_upper(x) == ascii_upper(y),
    ensures
        char_is_whitespace(x) <==> char_is_whitespace(y),
{
    lemma_ascii_whitespace(x);
    lemma_ascii_whitespace(y);
    lemma_same_upper_non_letter(x, y, ' ');
    lemma_same_upper_non_letter(x, y, '\u{9}');
    lemma_same_upper_non_letter(x, y, '\u{a}');
    lemma_same_upper_non_letter(x, y, '\u{b}');
    lemma_same_upper_non_letter(x, y, '\u{c}');
    lemma_same_upper_non_letter(x, y, '\u{d}');
}

/// Splitting texts that differ only in case gives pieces that differ only
/// in case, for a separator that is no letter.
pub proof fn lemma_split_same_but_case(a: Seq<char>, b: Seq<char>, sep: char)
    requires
        same_but_case(a, b),
        !('a' <= sep && sep <= 'z'),
        !('A' <= sep && sep <= 'Z'),
    ensures
        split_on(a, sep).len() == split_on(b, sep).len(),
        forall|k: int| 0 <= k < split_on(a, sep).len() ==> same_but_case(#[trigger] split_on(a, sep)[k], split_on(b, sep)[k]),
    decreases a.len(),
{
    if a.len() > 0 {
        let a0 = a.drop_last();
        let b0 = b.drop_last();
        assert(same_but_case(a0, b0)) by {
            assert forall|i: int| 0 <= i < a0.len() implies ascii_upper(#[trigger] a0[i]) == ascii_upper(b0[i]) by {
                assert(a0[i] == a[i] && b0[i] == b[i]);
            }
            assert forall|i: int| 0 <= i < a0.len() implies (#[trigger] a0[i] as u32) < 128 by {
                assert(a0[i] == a[i]);
            }
            assert forall|i: int| 0 <= i < b0.len() implies (#[trigger] b0[i] as u32) < 128 by {
                assert(b0[i] == b[i]);
            }
        }
        lemma_split_same_but_case(a0, b0, sep);
        lemma_split_on_nonempty(a0, sep);
        let n = a.len() - 1;
        assert(ascii_upper(a[n]) == ascii_upper(b[n]));
        assert((a[n] as u32) < 128 && (b[n] as u32) < 128);
        lemma_same_upper_non_letter(a[n], b[n], sep);
        let pa = split_on(a0, sep);
        let pb = split_on(b0, sep);
        let ca = split_on(a, sep);
        let cb = split_on(b, sep);
        assert forall|k: int| 0 <= k < ca.len() implies same_but_case(#[trigger] ca[k], cb[k]) by {
            if a.last() != sep && k == pa.len() - 1 {
                let x = pa.last().push(a.last());
                let y = pb.last().push(b.last());
                assert(ca[k] == x && cb[k] == y);
                assert(same_but_case(pa[k], pb[k]));
                assert forall|i: int| 0 <= i < x.len() implies ascii_upper(#[trigger] x[i]) == ascii_upper(y[i]) by {
                    if i < pa[k].len() {
                        assert(x[i] == pa[k][i] && y[i] == pb[k][i]);
                    }
                }
                assert forall|i: int| 0 <= i < x.len() implies (#[trigger] x[i] as u32) < 128 by {
                    if i < pa[k].len() {
                        assert(x[i] == pa[k][i]);
                    }
                }
                assert forall|i: int| 0 <= i < y.len() implies (#[trigger] y[i] as u32) < 128 by {
                    if i < pb[k].len() {
                        assert(y[i] == pb[k][i]);
                    }
                }
            } else if k < pa.len() {
                assert(ca[k] == pa[k] && cb[k] == pb[k]);
            } else {
                assert(ca[k] == Seq::<char>::empty() && cb[k] == Seq::<char>::empty());
            }
        }
    }
}

/// Trimming texts that differ only in case gives texts that differ only in
/// case.
pub proof fn lemma_trim_same_but_case(a: Seq<char>, b: Seq<char>)
    requires
        same_but_case(a, b),
    ensures
        same_but_case(trim_chars(a), trim_chars(b)),
{
    lemma_trim_start_same_but_case(a, b);
    lemma_trim_end_same_but_case(trim_start_chars(a), trim_start_chars(b));
}

proof fn lemma_trim_start_same_but_case(a: Seq<char>, b: Seq<char>)
    requires
        same_but_case(a, b),
    ensures
        same_but_case(trim_start_chars(a), trim_start_chars(b)),
    decreases a.len(),
{
    if a.len() > 0 {
        assert(ascii_upper(a[0]) == ascii_upper(b[0]));
        assert((a[0] as u32) < 128 && (b[0] as u32) < 128);
        lemma_same_upper_whitespace(a[0], b[0]);
        if char_is_whitespace(a[0]) {
            let a1 = a.drop_first();
            let b1 = b.drop_first();
            assert(same_but_case(a1, b1)) by {
                assert forall|i: int| 0 <= i < a1.len() implies ascii_upper(#[trigger] a1[i]) == ascii_upper(b1[i]) by {
                    assert(a1[i] == a[i + 1] && b1[i] == b[i + 1]);
                }
                assert forall|i: int| 0 <= i < a1.len() implies (#[trigger] a1[i] as u32) < 128 by {
                    assert(a1[i] == a[i + 1]);
                }
                assert forall|i: int| 0 <= i < b1.len() implies (#[trigger] b1[i] as u32) < 128 by {
                    assert(b1[i] == b[i + 1]);
                }
            }
            lemma_trim_start_same_but_case(a1, b1);
        }
    }
}

proof fn lemma_trim_end_same_but_case(a: Seq<char>, b: Seq<char>)
    requires
        same_but_case(a, b),
    ensures
        same_but_case(trim_end_chars(a), trim_end_chars(b)),
    decreases a.len(),
{
    if a.len() > 0 {
        let n = a.len() - 1;
        assert(ascii_upper(a[n]) == ascii_upper(b[n]));
        assert((a[n] as u32) < 128 && (b[n] as u32) < 128);
        lemma_same_upper_whitespace(a[n], b[n]);
        if char_is_whitespace(a.last()) {
            let a1 = a.drop_last();
            let b1 = b.drop_last();
            assert(same_but_case(a1, b1)) by {
                assert forall|i: int| 0 <= i < a1.len() implies ascii_upper(#[trigger] a1[i]) == ascii_upper(b1[i]) by {
                    assert(a1[i] == a[i] && b1[i] == b[i]);
                }
                assert forall|i: int| 0 <= i < a1.len() implies (#[trigger] a1[i] as u32) < 128 by {
                    assert(a1[i] == a[i]);
                }
                assert forall|i: int| 0 <= i < b1.len() implies (#[trigger] b1[i] as u32) < 128 by {
                    assert(b1[i] == b[i]);
                }
            }
            lemma_trim_end_same_but_case(a1, b1);
        }
    }
}

/// Texts that differ only in case have the same ASCII upper-case form.
pub proof fn lemma_upper_same_but_case(a: Seq<char>, b: Seq<char>)
    requires
        same_but_case(a, b),
    ensures
        ascii_upper_text(a) == ascii_upper_text(b),
{
    assert(ascii_upper_text(a) =~= ascii_upper_text(b));
}

/// No piece of a split holds the separator.
pub proof fn lemma_split_pieces_lack_sep(s: Seq<char>, sep: char)
    ensures
        forall|k: int, i: int| 0 <= k < split_on(s, sep).len() && 0 <= i < split_on(s, sep)[k].len()
            ==> #[trigger] split_on(s, sep)[k][i] != sep,
    decreases s.len(),
{
    if s.len() > 0 {
        lemma_split_pieces_lack_sep(s.drop_last(), sep);
        lemma_split_on_nonempty(s.drop_last(), sep);
        let prev = split_on(s.drop_last(), sep);
        let cur = split_on(s, sep);
        assert forall|k: int, i: int| 0 <= k < cur.len() && 0 <= i < cur[k].len() implies #[trigger] cur[k][i] != sep by {
            if s.last() != sep && k == prev.len() - 1 {
                let x = prev.last().push(s.last());
                assert(cur[k] == x);
                if i < prev.last().len() {
                    assert(x[i] == prev[k][i]);
                }
            } else if k < prev.len() {
                assert(cur[k] == prev[k]);
            }
        }
    }
}

/// A text without the separator is a single piece.
pub proof fn lemma_split_no_sep(s: Seq<char>, sep: char)
    requires
        forall|i: int| 0 <= i < s.len() ==> #[trigger] s[i] != sep,
    ensures
        split_on(s, sep) == seq![s],
    decreases s.len(),
{
    if s.len() > 0 {
        let s0 = s.drop_last();
        assert forall|i: int| 0 <= i < s0.len() implies #[trigger] s0[i] != sep by {
            assert(s0[i] == s[i]);
        }
        lemma_split_no_sep(s0, sep);
        assert(s.last() != sep);
        assert(s0.push(s.last()) == s);
        assert(split_on(s, sep) =~= seq![s]);
    } else {
        assert(s == Seq::<char>::empty());
    }
}

/// Splitting at a separator put between two texts splits each of them.
pub proof fn lemma_split_concat(s: Seq<char>, t: Seq<char>, sep: char)
    ensures
        split_on(s + seq![sep] + t, sep) == split_on(s, sep) + split_on(t, sep),
    decreases t.len(),
{
    let u = s + seq![sep] + t;
    if t.len() == 0 {
        assert(u.drop_last() == s);
        assert(u.last() == sep);
        assert(split_on(t, sep) == seq![Seq::<char>::empty()]);
        assert(split_on(u, sep) =~= split_on(s, sep) + split_on(t, sep));
    } else {
        let t0 = t.drop_last();
        lemma_split_concat(s, t0, sep);
        lemma_split_on_nonempty(t0, sep);
        lemma_split_on_nonempty(s, sep);
        assert(u.drop_last() == s + seq![sep] + t0);
        assert(u.last() == t.last());
        let a = split_on(s, sep);
        let b = split_on(t0, sep);
        if t.last() == sep {
            assert(split_on(u, sep) =~= a + b.push(Seq::<char>::empty()));
        } else {
            let ab = a + b;
            assert(ab.last() == b.last());
            assert(ab.update(ab.len() - 1, ab.last().push(t.last())) =~= a + b.update(b.len() - 1, b.last().push(t.last())));
        }
    }
}

/// Trimming keeps a stretch of the text, with no whitespace at either end.
pub proof fn lemma_trim_shape(s: Seq<char>)
    ensures
        exists|a: int, b: int| 0 <= a <= b <= s.len() && #[trigger] s.subrange(a, b) == trim_chars(s),
        trim_chars(s).len() > 0 ==> !char_is_whitespace(trim_chars(s)[0]) && !char_is_whitespace(trim_chars(s).last()),
        (exists|i: int| 0 <= i < s.len() && !char_is_whitespace(#[trigger] s[i])) ==> trim_chars(s).len() > 0,
{
    lemma_trim_start_shape(s);
    let t = trim_start_chars(s);
    lemma_trim_end_shape(t);
    let a = s.len() - t.len();
    let b = a + trim_end_chars(t).len();
    assert(s.subrange(a, b) =~= trim_chars(s));
    if exists|i: int| 0 <= i < s.len() && !char_is_whitespace(#[trigger] s[i]) {
        let i = choose|i: int| 0 <= i < s.len() && !char_is_whitespace(#[trigger] s[i]);
        assert(t.len() > 0);
        assert(!char_is_whitespace(t[0]));
    }
    if trim_chars(s).len() > 0 {
        assert(trim_chars(s)[0] == t[0]);
    }
}

proof fn lemma_trim_start_shape(s: Seq<char>)
    ensures
        trim_start_chars(s) == s.skip(s.len() - trim_start_chars(s).len()),
        trim_start_chars(s).len() <= s.len(),
        trim_start_chars(s).len() > 0 ==> !char_is_whitespace(trim_start_chars(s)[0]),
        forall|i: int| 0 <= i < s.len() - trim_start_chars(s).len() ==> char_is_whitespace(#[trigger] s[i]),
    decreases s.len(),
{
    if s.len() > 0 && char_is_whitespace(s[0]) {
        lemma_trim_start_shape(s.drop_first());
        let t = trim_start_chars(s.drop_first());
        assert(s.drop_first().skip(s.drop_first().len() - t.len()) =~= s.skip(s.len() - t.len()));
        assert forall|i: int| 0 <= i < s.len() - t.len() implies char_is_whitespace(#[trigger] s[i]) by {
            if i > 0 {
                assert(s[i] == s.drop_first()[i - 1]);
            }
        }
    } else {
        assert(s.skip(0) =~= s);
    }
}

proof fn lemma_trim_end_shape(s: Seq<char>)
    ensures
        trim_end_chars(s) == s.take(trim_end_chars(s).len() as int),
        trim_end_chars(s).len() <= s.len(),
        trim_end_chars(s).len() > 0 ==> !char_is_whitespace(trim_end_chars(s).last()),
        s.len() > 0 && !char_is_whitespace(s[0]) ==> trim_end_chars(s).len() > 0,
    decreases s.len(),
{
    if s.len() > 0 && char_is_whitespace(s.last()) {
        lemma_trim_end_shape(s.drop_last());
        let t = trim_end_chars(s.drop_last());
        assert(s.drop_last().take(t.len() as int) =~= s.take(t.len() as int));
        if s.len() > 0 && !char_is_whitespace(s[0]) {
            assert(s.drop_last().len() > 0);
            assert(s.drop_last()[0] == s[0]);
        }
    } else {
        assert(s.take(s.len() as int) =~= s);
    }
}

/// The ASCII upper-case form of an ASCII character is ASCII, is whitespace
/// exactly where the character is, and stays as it is when upper-cased
/// again.
pub proof fn lemma_ascii_upper_char(x: char)
    requires
        (x as u32) < 128,
    ensures
        (ascii_upper(x) as u32) < 128,
        ascii_upper(ascii_upper(x)) == ascii_upper(x),
        char_is_whitespace(ascii_upper(x)) <==> char_is_whitespace(x),
        ascii_upper(x) == '+' <==> x == '+',
{
    if 'a' <= x && x <= 'z' {
        assert(ascii_upper(x) as u32 == (x as u32) - 32);
    }
    lemma_ascii_whitespace(x);
}

/// Whether every character of `w` is whitespace.
pub open spec fn all_whitespace(w: Seq<char>) -> bool {
    forall|i: int| 0 <= i < w.len() ==> char_is_whitespace(#[trigger] w[i])
}

/// Leading whitespace goes with the trimming of the start.
pub proof fn lemma_trim_start_skips_whitespace(w: Seq<char>, q: Seq<char>)
    requires
        all_whitespace(w),
    ensures
        trim_start_chars(w + q) == trim_start_chars(q),
    decreases w.len(),
{
    if w.len() > 0 {
        let w1 = w.drop_first();
        assert forall|i: int| 0 <= i < w1.len() implies char_is_whitespace(#[trigger] w1[i]) by {
            assert(w1[i] == w[i + 1]);
        }
        assert((w + q)[0] == w[0]);
        assert((w + q).drop_first() =~= w1 + q);
        lemma_trim_start_skips_whitespace(w1, q);
    } else {
        assert(w + q =~= q);
    }
}

/// Trailing whitespace goes with the trimming of the end.
pub proof fn lemma_trim_end_skips_whitespace(q: Seq<char>, w: Seq<char>)
    requires
        all_whitespace(w),
    ensures
        trim_end_chars(q + w) == trim_end_chars(q),
    decreases w.len(),
{
    if w.len() > 0 {
        let w1 = w.drop_last();
        assert forall|i: int| 0 <= i < w1.len() implies char_is_whitespace(#[trigger] w1[i]) by {
            assert(w1[i] == w[i]);
        }
        assert((q + w).last() == w.last());
        assert((q + w).drop_last() =~= q + w1);
        lemma_trim_end_skips_whitespace(q, w1);
    } else {
        assert(q + w =~= q);
    }
}

/// Trimming the start of a text followed by whitespace.
proof fn lemma_trim_start_then_whitespace(p: Seq<char>, w: Seq<char>)
    requires
        all_whitespace(w),
    ensures
        (trim_start_chars(p).len() > 0 && trim_start_chars(p + w) == trim_start_chars(p) + w)
            || (trim_start_chars(p).len() == 0 && trim_start_chars(p + w).len() == 0),
    decreases p.len(),
{
    if p.len() == 0 {
        assert(p + w =~= w);
        lemma_trim_start_skips_whitespace(w, Seq::<char>::empty());
        assert(w + Seq::<char>::empty() =~= w);
    } else {
        assert((p + w)[0] == p[0]);
        if char_is_whitespace(p[0]) {
            assert((p + w).drop_first() =~= p.drop_first() + w);
            lemma_trim_start_then_whitespace(p.drop_first(), w);
        }
    }
}

/// Whitespace around a text does not change its trimmed form.
pub proof fn lemma_trim_padded(w1: Seq<char>, p: Seq<char>, w2: Seq<char>)
    requires
        all_whitespace(w1),
        all_whitespace(w2),
    ensures
        trim_chars(w1 + p + w2) == trim_chars(p),
{
    assert(w1 + p + w2 =~= w1 + (p + w2));
    lemma_trim_start_skips_whitespace(w1, p + w2);
    lemma_trim_start_then_whitespace(p, w2);
    if trim_start_chars(p).len() > 0 {
        lemma_trim_end_skips_whitespace(trim_start_chars(p), w2);
    } else {
        assert(trim_start_chars(p + w2) =~= Seq::<char>::empty());
        assert(trim_start_chars(p) =~= Seq::<char>::empty());
    }
}

/// An all-whitespace text trims to nothing.
pub proof fn lemma_trim_blank(w: Seq<char>)
    requires
        all_whitespace(w),
    ensures
        trim_chars(w) == Seq::<char>::empty(),
{
    lemma_trim_start_skips_whitespace(w, Seq::<char>::empty());
    assert(w + Seq::<char>::empty() =~= w);
}

/// `str::trim`: the string slice without leading and trailing whitespace.
#[verifier::external_body]
pub fn str_trim(s: &str) -> (r: &str)
    ensures
        r@ == trim_chars(s@),
        r@.len() > 0 ==> !char_is_whitespace(r@[0]) && !char_is_whitespace(r@.last()),
{
    s.trim()
}

/// `str::to_uppercase`: the Unicode uppercase equivalent of the slice. For
/// an ASCII slice that is the slice with `a` to `z` turned into `A` to `Z`,
/// as the Unicode case mappings of ASCII letters are; for other text the
/// result is only named.
#[verifier::external_body]
pub fn str_to_uppercase(s: &str) -> (r: String)
    ensures
        r@ == uppercase_of(s@),
        is_ascii_text(s@) ==> r@ == ascii_upper_text(s@),
{
    s.to_uppercase()
}

/// Whether `s` and `t` hold the same characters.
pub fn same_text(s: &str, t: &str) -> (r: bool)
    ensures
        r == (s@ == t@),
{
    let n = s.unicode_len();
    let m = t.unicode_len();
    if n != m {
        return false;
    }
    let mut i: usize = 0;
    while i < n
        invariant
            n == s@.len(),
            m == t@.len(),
            n == m,
            i <= n,
            s@.subrange(0, i as int) == t@.subrange(0, i as int),
        decreases n - i,
    {
        if s.get_char(i) != t.get_char(i) {
            assert(s@[i as int] != t@[i as int]);
            return false;
        }
        assert(s@.subrange(0, i + 1) == s@.subrange(0, i as int).push(s@[i as int]));
        assert(t@.subrange(0, i + 1) == t@.subrange(0, i as int).push(t@[i as int]));
        i = i + 1;
    }
    assert(s@ == s@.subrange(0, n as int));
    assert(t@ == t@.subrange(0, m as int));
    true
}

/// Whether `s` starts with `prefix`.
pub fn starts_with_text(s: &str, prefix: &str) -> (r: bool)
    ensures
        r == has_prefix(s@, prefix@),
{
    let n = s.unicode_len();
    let m = prefix.unicode_len();
    if m > n {
        return false;
    }
    let mut i: usize = 0;
    while i < m
        invariant
            n == s@.len(),
            m == prefix@.len(),
            m <= n,
            i <= m,
            s@.subrange(0, i as int) == prefix@.subrange(0, i as int),
        decreases m - i,
    {
        if s.get_char(i) != prefix.get_char(i) {
            assert(s@.subrange(0, m as int)[i as int] != prefix@[i as int]);
            return false;
        }
        assert(s@.subrange(0, i + 1) == s@.subrange(0, i as int).push(s@[i as int]));
        assert(prefix@.subrange(0, i + 1) == prefix@.subrange(0, i as int).push(prefix@[i as int]));
        i = i + 1;
    }
    assert(prefix@ == prefix@.subrange(0, m as int));
    true
}

/// The pieces of `s` between the occurrences of `sep`, as `str::split`
/// yields them.
pub fn split_text<'a>(s: &'a str, sep: char) -> (pieces: Vec<&'a str>)
    ensures
        pieces@.len() == split_on(s@, sep).len(),
        forall|i: int| 0 <= i < pieces@.len() ==> #[trigger] pieces@[i]@ == split_on(s@, sep)[i],
{
    let n = s.unicode_len();
    let mut pieces: Vec<&'a str> = Vec::new();
    let mut start: usize = 0;
    let mut i: usize = 0;
    while i < n
        invariant
            n == s@.len(),
            start <= i <= n,
            pieces@.len() + 1 == split_on(s@.subrange(0, i as int), sep).len(),
            forall|k: int|
                0 <= k < pieces@.len() ==> #[trigger] pieces@[k]@ == split_on(
                    s@.subrange(0, i as int),
                    sep,
                )[k],
            split_on(s@.subrange(0, i as int), sep).last() == s@.subrange(start as int, i as int),
        decreases n - i,
    {
        let c = s.get_char(i);
        proof {
            let pre = s@.subrange(0, i as int);
            let post = s@.subrange(0, i + 1);
            assert(post.drop_last() == pre);
            assert(post.last() == c);
            lemma_split_on_nonempty(pre, sep);
        }
        if c == sep {
            let piece = s.substring_char(start, i);
            pieces.push(piece);
            start = i + 1;
        } else {
            proof {
                assert(s@.subrange(start as int, i + 1) == s@.subrange(start as int, i as int).push(c));
            }
        }
        i = i + 1;
    }
    let last = s.substring_char(start, n);
    pieces.push(last);
    assert(s@.subrange(0, n as int) == s@);
    pieces
}

} // verus!
