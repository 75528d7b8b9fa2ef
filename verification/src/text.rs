//! Character-level utilities for file names: ASCII-case-insensitive
//! comparison, lexicographic order on code points, and splitting a path
//! into base name and extension.

use vstd::prelude::*;
use vstd::string::*;

verus! {

/// Code point of `c`, with an ASCII capital letter folded to lower case.
pub open spec fn fold_code(c: char) -> int {
    if ('A' as u32) <= (c as u32) && (c as u32) <= ('Z' as u32) {
        (c as u32) + 32
    } else {
        (c as u32) as int
    }
}

/// `a` and `b` are the same sequence of characters up to ASCII case.
pub open spec fn eq_ignore_ascii_case(a: Seq<char>, b: Seq<char>) -> bool {
    a.len() == b.len() && (forall|i: int| 0 <= i < a.len() ==> fold_code(a[i]) == fold_code(b[i]))
}

/// Compares two strings for equality up to ASCII case.
pub fn str_eq_ignore_ascii_case(a: &str, b: &str) -> (r: bool)
    ensures
        r == eq_ignore_ascii_case(a@, b@),
{
    let na: usize = a.unicode_len();
    let nb: usize = b.unicode_len();
    if na != nb {
        return false;
    }
    let mut i: usize = 0;
    while i < na
        invariant
            na == a@.len(),
            na == b@.len(),
            i <= na,
            forall|j: int| 0 <= j < i ==> fold_code(a@[j]) == fold_code(b@[j]),
        decreases na - i,
    {
        let ca: char = a.get_char(i);
        let cb: char = b.get_char(i);
        let ua: u32 = ca as u32;
        let ub: u32 = cb as u32;
        let fa: u32 = if 65 <= ua && ua <= 90 { ua + 32 } else { ua };
        let fb: u32 = if 65 <= ub && ub <= 90 { ub + 32 } else { ub };
        if fa != fb {
            return false;
        }
        i = i + 1;
    }
    true
}

/// `a` comes no later than `b` in the lexicographic order on code points.
pub open spec fn lex_leq(a: Seq<char>, b: Seq<char>) -> bool
    decreases a.len(),
{
    if a.len() == 0 {
        true
    } else if b.len() == 0 {
        false
    } else if (a[0] as u32) < (b[0] as u32) {
        true
    } else if (a[0] as u32) > (b[0] as u32) {
        false
    } else {
        lex_leq(a.drop_first(), b.drop_first())
    }
}

/// The lexicographic order relates every pair of strings one way or the other.
pub proof fn lemma_lex_leq_total(a: Seq<char>, b: Seq<char>)
    ensures
        lex_leq(a, b) || lex_leq(b, a),
    decreases a.len(),
{
    if a.len() == 0 || b.len() == 0 {
    } else if (a[0] as u32) == (b[0] as u32) {
        lemma_lex_leq_total(a.drop_first(), b.drop_first());
    }
}

/// The lexicographic order is transitive.
pub proof fn lemma_lex_leq_trans(a: Seq<char>, b: Seq<char>, c: Seq<char>)
    requires
        lex_leq(a, b),
        lex_leq(b, c),
    ensures
        lex_leq(a, c),
    decreases a.len(),
{
    if a.len() == 0 || b.len() == 0 || c.len() == 0 {
    } else if (a[0] as u32) == (b[0] as u32) && (b[0] as u32) == (c[0] as u32) {
        lemma_lex_leq_trans(a.drop_first(), b.drop_first(), c.drop_first());
    }
}

/// Compares two strings in the lexicographic order on code points.
pub fn str_lex_leq(a: &str, b: &str) -> (r: bool)
    ensures
        r == lex_leq(a@, b@),
{
    let na: usize = a.unicode_len();
    let nb: usize = b.unicode_len();
    let mut i: usize = 0;
    proof {
        assert(a@.skip(0) =~= a@);
        assert(b@.skip(0) =~= b@);
    }
    while i < na && i < nb
        invariant
            na == a@.len(),
            nb == b@.len(),
            i <= na,
            i <= nb,
            lex_leq(a@, b@) == lex_leq(a@.skip(i as int), b@.skip(i as int)),
        decreases na - i,
    {
        let ca: char = a.get_char(i);
        let cb: char = b.get_char(i);
        proof {
            assert(a@.skip(i as int)[0] == a@[i as int]);
            assert(b@.skip(i as int)[0] == b@[i as int]);
            assert(a@.skip(i as int).drop_first() =~= a@.skip(i as int + 1));
            assert(b@.skip(i as int).drop_first() =~= b@.skip(i as int + 1));
        }
        if (ca as u32) < (cb as u32) {
            return true;
        }
        if (ca as u32) > (cb as u32) {
            return false;
        }
        i = i + 1;
    }
    proof {
        if i == na {
            assert(a@.skip(i as int).len() == 0);
        } else {
            assert(b@.skip(i as int).len() == 0);
            assert(a@.skip(i as int).len() > 0);
        }
    }
    i == na
}

/// Index at which the base name (the part after the last `'/'`) begins.
pub open spec fn base_start(p: Seq<char>) -> int
    decreases p.len(),
{
    if p.len() == 0 {
        0
    } else if p.last() == '/' {
        p.len() as int
    } else {
        base_start(p.drop_last())
    }
}

/// The base name of a path: everything after the last `'/'`.
pub open spec fn base_name(p: Seq<char>) -> Seq<char> {
    p.subrange(base_start(p), p.len() as int)
}

/// Returns the base name of `p`: everything after the last `'/'`.
pub fn base_name_of<'a>(p: &'a str) -> (r: &'a str)
    ensures
        r@ == base_name(p@),
{
    let n: usize = p.unicode_len();
    let mut start: usize = 0;
    let mut i: usize = 0;
    while i < n
        invariant
            n == p@.len(),
            i <= n,
            start <= i,
            start == base_start(p@.subrange(0, i as int)),
        decreases n - i,
    {
        let c: char = p.get_char(i);
        proof {
            let pre = p@.subrange(0, i as int);
            let ext = p@.subrange(0, i as int + 1);
            assert(ext.drop_last() =~= pre);
            assert(ext.last() == p@[i as int]);
        }
        if c == '/' {
            start = i + 1;
        }
        i = i + 1;
    }
    proof {
        assert(p@.subrange(0, n as int) =~= p@);
    }
    p.substring_char(start, n)
}

/// Index at which the extension of a base name begins: one past the last
/// `'.'`, or `0` if the name has no `'.'` at all.
pub open spec fn dot_start(b: Seq<char>) -> int
    decreases b.len(),
{
    if b.len() == 0 {
        0
    } else if b.last() == '.' {
        b.len() as int
    } else {
        dot_start(b.drop_last())
    }
}

/// A base name has an extension when it holds a `'.'` that is not its
/// first character: a name that starts with its only `'.'` is a hidden
/// file, not a file with an extension.
pub open spec fn has_extension(b: Seq<char>) -> bool {
    dot_start(b) >= 2
}

/// The extension of a base name: everything after the last `'.'`.
pub open spec fn extension(b: Seq<char>) -> Seq<char> {
    b.subrange(dot_start(b), b.len() as int)
}

/// Returns the extension of the base name `b`, or `None` if `b` has none.
pub fn extension_of<'a>(b: &'a str) -> (r: Option<&'a str>)
    ensures
        match r {
            Some(e) => has_extension(b@) && e@ == extension(b@),
            None => !has_extension(b@),
        },
{
    let n: usize = b.unicode_len();
    let mut start: usize = 0;
    let mut i: usize = 0;
    while i < n
        invariant
            n == b@.len(),
            i <= n,
            start <= i,
            start == dot_start(b@.subrange(0, i as int)),
        decreases n - i,
    {
        let c: char = b.get_char(i);
        proof {
            let pre = b@.subrange(0, i as int);
            let ext = b@.subrange(0, i as int + 1);
            assert(ext.drop_last() =~= pre);
            assert(ext.last() == b@[i as int]);
        }
        if c == '.' {
            start = i + 1;
        }
        i = i + 1;
    }
    proof {
        assert(b@.subrange(0, n as int) =~= b@);
    }
    if start >= 2 {
        Some(b.substring_char(start, n))
    } else {
        None
    }
}

} // verus!
