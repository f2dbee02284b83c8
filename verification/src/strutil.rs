//! Character-level string utilities: lexicographic order, prefix tests
//! and equality, all specified over `Seq<char>` views.
//!
//! Keys in the store are compared character by character.  For strings,
//! whose characters are Unicode scalar values, this order agrees with the
//! byte-for-byte order of their UTF-8 encodings.

use vstd::prelude::*;

verus! {

/// Strict lexicographic order on character sequences: `a` comes before
/// `b` when `a` is a proper prefix of `b`, or when the first differing
/// character of `a` is the smaller one.
pub open spec fn lex_lt(a: Seq<char>, b: Seq<char>) -> bool
    decreases a.len(),
{
    if b.len() == 0 {
        false
    } else if a.len() == 0 {
        true
    } else if (a[0] as u32) < (b[0] as u32) {
        true
    } else if a[0] == b[0] {
        lex_lt(a.skip(1), b.skip(1))
    } else {
        false
    }
}

/// `p` is an initial segment of `s`.
pub open spec fn is_prefix(p: Seq<char>, s: Seq<char>) -> bool
    decreases p.len(),
{
    if p.len() == 0 {
        true
    } else if s.len() == 0 {
        false
    } else {
        p[0] == s[0] && is_prefix(p.skip(1), s.skip(1))
    }
}

pub proof fn lemma_lex_lt_irreflexive(a: Seq<char>)
    ensures
        !lex_lt(a, a),
    decreases a.len(),
{
    if a.len() > 0 {
        lemma_lex_lt_irreflexive(a.skip(1));
    }
}

pub proof fn lemma_lex_lt_trichotomy(a: Seq<char>, b: Seq<char>)
    ensures
        lex_lt(a, b) || lex_lt(b, a) || a == b,
    decreases a.len(),
{
    if a.len() == 0 && b.len() == 0 {
        assert(a =~= b);
    } else if a.len() > 0 && b.len() > 0 && a[0] != b[0] {
        vstd::utf8::char_u32_cast(a[0], a[0] as u32);
        vstd::utf8::char_u32_cast(b[0], b[0] as u32);
        assert(a[0] as u32 != b[0] as u32);
        assert(lex_lt(a, b) || lex_lt(b, a));
    } else if a.len() > 0 && b.len() > 0 && a[0] == b[0] {
        lemma_lex_lt_trichotomy(a.skip(1), b.skip(1));
        if !lex_lt(a, b) && !lex_lt(b, a) {
            assert(a.skip(1) == b.skip(1));
            assert forall|i: int| 0 <= i < a.len() implies a[i] == b[i] by {
                if i > 0 {
                    assert(a[i] == a.skip(1)[i - 1]);
                    assert(b[i] == b.skip(1)[i - 1]);
                }
            }
            assert(a =~= b);
        }
    }
}

pub proof fn lemma_lex_lt_transitive(a: Seq<char>, b: Seq<char>, c: Seq<char>)
    requires
        lex_lt(a, b),
        lex_lt(b, c),
    ensures
        lex_lt(a, c),
    decreases a.len(),
{
    if a.len() > 0 && b.len() > 0 && a[0] == b[0] && c.len() > 0 && b[0] == c[0] {
        lemma_lex_lt_transitive(a.skip(1), b.skip(1), c.skip(1));
    }
}

/// The order is asymmetric; in particular two ordered keys differ.
pub proof fn lemma_lex_lt_asymmetric(a: Seq<char>, b: Seq<char>)
    requires
        lex_lt(a, b),
    ensures
        !lex_lt(b, a),
        a != b,
{
    if lex_lt(b, a) {
        lemma_lex_lt_transitive(a, b, a);
        lemma_lex_lt_irreflexive(a);
    }
    lemma_lex_lt_irreflexive(a);
}

/// The recursive prefix test agrees with the subrange formulation.
pub proof fn lemma_is_prefix_subrange(p: Seq<char>, s: Seq<char>)
    ensures
        is_prefix(p, s) <==> (p.len() <= s.len() && s.subrange(0, p.len() as int) == p),
    decreases p.len(),
{
    if p.len() == 0 {
        assert(s.subrange(0, 0) =~= p);
    } else if s.len() > 0 {
        lemma_is_prefix_subrange(p.skip(1), s.skip(1));
        if is_prefix(p, s) {
            assert forall|i: int| 0 <= i < p.len() implies s.subrange(0, p.len() as int)[i] == p[i]
            by {
                if i > 0 {
                    assert(s[i] == s.skip(1)[i - 1]);
                    assert(s.skip(1).subrange(0, p.len() - 1)[i - 1] == s.skip(1)[i - 1]);
                    assert(p[i] == p.skip(1)[i - 1]);
                }
            }
            assert(s.subrange(0, p.len() as int) =~= p);
        } else if p.len() <= s.len() && s.subrange(0, p.len() as int) == p {
            assert(p[0] == s.subrange(0, p.len() as int)[0]);
            assert forall|i: int| 0 <= i < p.len() - 1 implies s.skip(1).subrange(
                0,
                p.len() - 1,
            )[i] == p.skip(1)[i] by {
                assert(s.skip(1)[i] == s[i + 1]);
                assert(s.subrange(0, p.len() as int)[i + 1] == s[i + 1]);
            }
            assert(s.skip(1).subrange(0, p.len() - 1) =~= p.skip(1));
        }
    }
}

/// The characters of `s` with every space replaced by a dash.
pub open spec fn dash_spaces_text(s: Seq<char>) -> Seq<char> {
    s.map_values(
        |c: char|
            if c == ' ' {
                '-'
            } else {
                c
            },
    )
}

/// What `str::to_lowercase` returns for a given character sequence.
pub uninterp spec fn lower_of(s: Seq<char>) -> Seq<char>;

/// Relies on `str::to_lowercase`: the lowercase equivalent of `s`,
/// a function of its characters alone; an empty string stays empty.
#[verifier::external_body]
pub(crate) fn to_lowercase(s: &str) -> (r: String)
    ensures
        r@ == lower_of(s@),
        s@.len() == 0 ==> r@.len() == 0,
{
    s.to_lowercase()
}

/// Relies on `String`'s `FromIterator` over characters: collecting the
/// characters of `v` yields the string of exactly those characters, in
/// order.
#[verifier::external_body]
pub(crate) fn string_from_chars(v: &Vec<char>) -> (r: String)
    ensures
        r@ == v@,
{
    v.iter().collect()
}

/// Replaces every space with a dash.
pub fn dash_spaces(s: &str) -> (r: String)
    ensures
        r@ == dash_spaces_text(s@),
{
    let mut out: Vec<char> = Vec::new();
    let n = s.unicode_len();
    let mut i: usize = 0;
    proof {
        assert(out@ =~= dash_spaces_text(s@.take(0)));
    }
    while i < n
        invariant
            n == s@.len(),
            0 <= i <= n,
            out@ == dash_spaces_text(s@.take(i as int)),
        decreases n - i,
    {
        let c = s.get_char(i);
        if c == ' ' {
            out.push('-');
        } else {
            out.push(c);
        }
        proof {
            assert(out@ =~= dash_spaces_text(s@.take(i as int + 1)));
        }
        i += 1;
    }
    proof {
        assert(s@.take(n as int) =~= s@);
    }
    string_from_chars(&out)
}

/// Decides `lex_lt(a@, b@)` by walking both strings character by character.
pub fn str_lex_lt(a: &str, b: &str) -> (r: bool)
    ensures
        r == lex_lt(a@, b@),
    decreases a@.len(),
{
    let alen = a.unicode_len();
    let blen = b.unicode_len();
    if blen == 0 {
        false
    } else if alen == 0 {
        true
    } else {
        let ca = a.get_char(0);
        let cb = b.get_char(0);
        if (ca as u32) < (cb as u32) {
            true
        } else if ca == cb {
            str_lex_lt(a.substring_char(1, alen), b.substring_char(1, blen))
        } else {
            false
        }
    }
}

/// Decides whether `s` starts with `p`, character by character.
pub fn str_starts_with(s: &str, p: &str) -> (r: bool)
    ensures
        r == is_prefix(p@, s@),
    decreases p@.len(),
{
    let slen = s.unicode_len();
    let plen = p.unicode_len();
    if plen == 0 {
        true
    } else if slen == 0 {
        false
    } else {
        let cp = p.get_char(0);
        let cs = s.get_char(0);
        if cp == cs {
            str_starts_with(s.substring_char(1, slen), p.substring_char(1, plen))
        } else {
            false
        }
    }
}

/// Decides whether two strings hold the same characters.
pub fn str_eq(a: &str, b: &str) -> (r: bool)
    ensures
        r == (a@ == b@),
    decreases a@.len(),
{
    let alen = a.unicode_len();
    let blen = b.unicode_len();
    if alen != blen {
        proof {
            if a@ == b@ {
                assert(a@.len() == b@.len());
            }
        }
        false
    } else if alen == 0 {
        proof {
            assert(a@ =~= b@);
        }
        true
    } else {
        let ca = a.get_char(0);
        let cb = b.get_char(0);
        if ca != cb {
            proof {
                if a@ == b@ {
                    assert(a@[0] == b@[0]);
                }
            }
            false
        } else {
            let r = str_eq(a.substring_char(1, alen), b.substring_char(1, blen));
            proof {
                if a@.skip(1) == b@.skip(1) && a@[0] == b@[0] {
                    assert forall|i: int| 0 <= i < a@.len() implies a@[i] == b@[i] by {
                        if i > 0 {
                            assert(a@[i] == a@.skip(1)[i - 1]);
                            assert(b@[i] == b@.skip(1)[i - 1]);
                        }
                    }
                    assert(a@ =~= b@);
                }
                if a@ == b@ {
                    assert(a@.skip(1) =~= b@.skip(1));
                }
            }
            r
        }
    }
}

} // verus!
