//! The library scanner: turns a list of candidate file paths into an
//! ordered playlist. Paths whose extension is not on the allow-list are
//! dropped, the rest are sorted by base name, ascending and stable, and
//! numbered from zero.
//!
//! Walking the directory tree is input work and stays outside the
//! library; this module receives the enumerated paths as plain strings.

use vstd::prelude::*;
use vstd::string::*;

use crate::text::base_name;
use crate::text::base_name_of;
use crate::text::eq_ignore_ascii_case;
use crate::text::extension;
use crate::text::extension_of;
use crate::text::has_extension;
use crate::text::lemma_lex_leq_total;
use crate::text::lemma_lex_leq_trans;
use crate::text::lex_leq;
use crate::text::str_eq_ignore_ascii_case;
use crate::text::str_lex_leq;
use crate::Track;

verus! {

/// The views of a sequence of strings.
pub open spec fn views_of(s: Seq<String>) -> Seq<Seq<char>> {
    s.map_values(|x: String| x@)
}

/// The path `p` is accepted: its base name has an extension equal, up to
/// ASCII case, to one of the allowed extensions.
pub open spec fn accepted(p: Seq<char>, allowed: Seq<Seq<char>>) -> bool {
    has_extension(base_name(p)) && (exists|k: int|
        0 <= k < allowed.len() && eq_ignore_ascii_case(extension(base_name(p)), allowed[k]))
}

/// The accepted paths of `entries`, in their original order.
pub open spec fn kept_paths(entries: Seq<Seq<char>>, allowed: Seq<Seq<char>>) -> Seq<Seq<char>> {
    entries.filter(|p: Seq<char>| accepted(p, allowed))
}

/// Order on paths: by base name, lexicographically on code points.
pub open spec fn name_leq(a: Seq<char>, b: Seq<char>) -> bool {
    lex_leq(base_name(a), base_name(b))
}

/// Where a path with view `p` is inserted into the already sorted `s`:
/// after every element whose base name comes no later, so that elements
/// with equal base names keep their original order.
pub open spec fn insert_pos(s: Seq<Seq<char>>, p: Seq<char>) -> int
    decreases s.len(),
{
    if s.len() == 0 {
        0
    } else if name_leq(s.last(), p) {
        s.len() as int
    } else {
        insert_pos(s.drop_last(), p)
    }
}

/// `s` with `p` inserted at its insertion position.
pub open spec fn insert_sorted(s: Seq<Seq<char>>, p: Seq<char>) -> Seq<Seq<char>> {
    s.insert(insert_pos(s, p), p)
}

/// Insertion sort of paths by base name; stable.
pub open spec fn sort_by_name(s: Seq<Seq<char>>) -> Seq<Seq<char>>
    decreases s.len(),
{
    if s.len() == 0 {
        Seq::<Seq<char>>::empty()
    } else {
        insert_sorted(sort_by_name(s.drop_last()), s.last())
    }
}

/// Every element of `s` comes no later than the elements after it.
pub open spec fn sorted_by_name(s: Seq<Seq<char>>) -> bool {
    forall|i: int, j: int| 0 <= i < j < s.len() ==> name_leq(s[i], s[j])
}

proof fn lemma_insert_pos_in_range(s: Seq<Seq<char>>, p: Seq<char>)
    ensures
        0 <= insert_pos(s, p) <= s.len(),
    decreases s.len(),
{
    if s.len() > 0 && !name_leq(s.last(), p) {
        lemma_insert_pos_in_range(s.drop_last(), p);
    }
}

/// Everything at or after the insertion position comes strictly later
/// than `p`; the element just before it comes no later than `p`.
proof fn lemma_insert_pos_splits(s: Seq<Seq<char>>, p: Seq<char>)
    ensures
        0 <= insert_pos(s, p) <= s.len(),
        forall|j: int| insert_pos(s, p) <= j < s.len() ==> !name_leq(s[j], p),
        insert_pos(s, p) > 0 ==> name_leq(s[insert_pos(s, p) - 1], p),
    decreases s.len(),
{
    lemma_insert_pos_in_range(s, p);
    if s.len() > 0 {
        if name_leq(s.last(), p) {
            assert(s[insert_pos(s, p) - 1] == s.last());
        } else {
            lemma_insert_pos_splits(s.drop_last(), p);
            assert forall|j: int| insert_pos(s, p) <= j < s.len() implies !name_leq(s[j], p) by {
                if j < s.len() - 1 {
                    assert(!name_leq(s.drop_last()[j], p));
                    assert(s.drop_last()[j] == s[j]);
                } else {
                    assert(s[j] == s.last());
                }
            }
            if insert_pos(s, p) > 0 {
                assert(s.drop_last()[insert_pos(s, p) - 1] == s[insert_pos(s, p) - 1]);
            }
        }
    }
}

/// Inserting into a sorted sequence keeps it sorted.
proof fn lemma_insert_sorted_keeps_sorted(s: Seq<Seq<char>>, p: Seq<char>)
    requires
        sorted_by_name(s),
    ensures
        sorted_by_name(insert_sorted(s, p)),
{
    let pos = insert_pos(s, p);
    lemma_insert_pos_splits(s, p);
    s.insert_ensures(pos, p);
    let t = s.insert(pos, p);
    assert forall|i: int, j: int| 0 <= i < j < t.len() implies name_leq(t[i], t[j]) by {
        if i < pos {
            assert(t[i] == s[i]);
        } else if i > pos {
            assert(t[i] == s[i - 1]);
        }
        if j < pos {
            assert(t[j] == s[j]);
        } else if j > pos {
            assert(t[j] == s[j - 1]);
        }
        if i == pos {
            // t[i] is p itself; everything from pos on comes after p
            assert(!name_leq(s[j - 1], p));
            lemma_lex_leq_total(base_name(p), base_name(s[j - 1]));
        } else if j == pos {
            // everything before pos comes no later than s[pos - 1] <= p
            assert(name_leq(s[pos - 1], p));
            if i < pos - 1 {
                assert(name_leq(s[i], s[pos - 1]));
                lemma_lex_leq_trans(base_name(s[i]), base_name(s[pos - 1]), base_name(p));
            }
        } else if i < pos && j > pos {
            if i == j - 1 {
            } else {
                assert(name_leq(s[i], s[j - 1]));
            }
        }
    }
}

/// The sort yields a sorted sequence: the general ordering law of the
/// scanner.
pub proof fn lemma_sort_by_name_sorted(s: Seq<Seq<char>>)
    ensures
        sorted_by_name(sort_by_name(s)),
    decreases s.len(),
{
    if s.len() > 0 {
        lemma_sort_by_name_sorted(s.drop_last());
        lemma_insert_sorted_keeps_sorted(sort_by_name(s.drop_last()), s.last());
    }
}

/// The sort keeps exactly the elements it was given.
pub proof fn lemma_sort_by_name_permutes(s: Seq<Seq<char>>)
    ensures
        sort_by_name(s).to_multiset() == s.to_multiset(),
    decreases s.len(),
{
    broadcast use vstd::seq_lib::group_to_multiset_ensures;

    if s.len() > 0 {
        lemma_sort_by_name_permutes(s.drop_last());
        let rest = sort_by_name(s.drop_last());
        lemma_insert_pos_in_range(rest, s.last());
        assert(s =~= s.drop_last().push(s.last()));
    }
}

/// Does the base name of `p` carry one of the allowed extensions?
fn is_accepted(p: &str, allowed: &Vec<String>) -> (r: bool)
    ensures
        r == accepted(p@, views_of(allowed@)),
{
    let bn = base_name_of(p);
    match extension_of(bn) {
        None => false,
        Some(e) => {
            let mut k: usize = 0;
            while k < allowed.len()
                invariant
                    k <= allowed@.len(),
                    e@ == extension(base_name(p@)),
                    has_extension(base_name(p@)),
                    forall|j: int|
                        0 <= j < k ==> !eq_ignore_ascii_case(
                            extension(base_name(p@)),
                            views_of(allowed@)[j],
                        ),
                decreases allowed@.len() - k,
            {
                if str_eq_ignore_ascii_case(e, allowed[k].as_str()) {
                    proof {
                        assert(views_of(allowed@)[k as int] == allowed@[k as int]@);
                        assert(eq_ignore_ascii_case(
                            extension(base_name(p@)),
                            views_of(allowed@)[k as int],
                        ));
                    }
                    return true;
                }
                proof {
                    assert(views_of(allowed@)[k as int] == allowed@[k as int]@);
                }
                k = k + 1;
            }
            false
        },
    }
}

/// Keeps the accepted paths of `entries`, in their original order.
fn filter_entries(entries: &Vec<String>, allowed: &Vec<String>) -> (r: Vec<String>)
    ensures
        views_of(r@) == kept_paths(views_of(entries@), views_of(allowed@)),
{
    let av = Ghost(views_of(allowed@));
    let pred = Ghost(|p: Seq<char>| accepted(p, av@));
    let mut out: Vec<String> = Vec::new();
    let mut i: usize = 0;
    proof {
        assert(views_of(entries@).subrange(0, 0) =~= Seq::<Seq<char>>::empty());
        assert(views_of(entries@).subrange(0, 0).filter(pred@) =~= Seq::<Seq<char>>::empty());
        assert(views_of(out@) =~= Seq::<Seq<char>>::empty());
    }
    while i < entries.len()
        invariant
            i <= entries@.len(),
            av@ == views_of(allowed@),
            pred@ == (|p: Seq<char>| accepted(p, av@)),
            views_of(out@) =~= views_of(entries@).subrange(0, i as int).filter(pred@),
        decreases entries@.len() - i,
    {
        let ghost pre = views_of(entries@).subrange(0, i as int);
        let ghost cur = views_of(entries@).subrange(0, i as int + 1);
        let ghost outpre = views_of(out@);
        proof {
            assert(cur.drop_last() =~= pre);
            assert(cur.last() == entries@[i as int]@);
        }
        if is_accepted(entries[i].as_str(), allowed) {
            out.push(entries[i].clone());
            proof {
                assert(views_of(out@) =~= outpre.push(entries@[i as int]@));
            }
        }
        proof {
            assert(cur =~= pre.push(entries@[i as int]@));
            pre.lemma_filter_push(entries@[i as int]@, pred@);
        }
        i = i + 1;
    }
    proof {
        assert(views_of(entries@).subrange(0, entries@.len() as int) =~= views_of(entries@));
    }
    out
}

/// Inserts `x` into the sorted `out` at its insertion position.
fn insert_by_name(out: &mut Vec<String>, x: String)
    ensures
        views_of(final(out)@) == insert_sorted(views_of(old(out)@), x@),
{
    let ghost s = views_of(old(out)@);
    let mut p: usize = out.len();
    proof {
        assert(s.subrange(0, p as int) =~= s);
    }
    while p > 0 && !str_lex_leq(base_name_of(out[p - 1].as_str()), base_name_of(x.as_str()))
        invariant
            p <= out@.len(),
            out@ == old(out)@,
            s == views_of(old(out)@),
            insert_pos(s, x@) == insert_pos(s.subrange(0, p as int), x@),
        decreases p,
    {
        let ghost pre = s.subrange(0, p as int);
        proof {
            assert(pre.drop_last() =~= s.subrange(0, p as int - 1));
            assert(pre.last() == s[p as int - 1]);
        }
        p = p - 1;
    }
    proof {
        if p > 0 {
            let pre = s.subrange(0, p as int);
            assert(pre.last() == s[p as int - 1]);
            assert(insert_pos(pre, x@) == pre.len());
        }
        lemma_insert_pos_in_range(s, x@);
    }
    out.insert(p, x);
    proof {
        assert(views_of(final(out)@) =~= insert_sorted(s, x@));
    }
}

/// Sorts the paths by base name: a stable insertion sort.
fn sort_entries(entries: Vec<String>) -> (r: Vec<String>)
    ensures
        views_of(r@) == sort_by_name(views_of(entries@)),
{
    let mut out: Vec<String> = Vec::new();
    let mut j: usize = 0;
    proof {
        assert(views_of(entries@).subrange(0, 0) =~= Seq::<Seq<char>>::empty());
        assert(views_of(out@) =~= Seq::<Seq<char>>::empty());
    }
    while j < entries.len()
        invariant
            j <= entries@.len(),
            views_of(out@) == sort_by_name(views_of(entries@).subrange(0, j as int)),
        decreases entries@.len() - j,
    {
        let ghost pre = views_of(entries@).subrange(0, j as int);
        let ghost cur = views_of(entries@).subrange(0, j as int + 1);
        proof {
            assert(cur.drop_last() =~= pre);
            assert(cur.last() == entries@[j as int]@);
        }
        let x = entries[j].clone();
        insert_by_name(&mut out, x);
        j = j + 1;
    }
    proof {
        assert(views_of(entries@).subrange(0, entries@.len() as int) =~= views_of(entries@));
    }
    out
}

/// The tracks `ts` are the paths `ps` in order, numbered from zero.
pub open spec fn tracks_match(ts: Seq<Track>, ps: Seq<Seq<char>>) -> bool {
    ts.len() == ps.len() && (forall|i: int|
        0 <= i < ts.len() ==> (#[trigger] ts[i]).ord == i && ts[i].path@ == ps[i])
}

/// Builds the playlist for `entries`: drops the paths whose extension is
/// not allowed, sorts the rest by base name, and numbers them from zero.
pub fn build_playlist(entries: &Vec<String>, allowed: &Vec<String>) -> (r: Vec<Track>)
    ensures
        tracks_match(r@, sort_by_name(kept_paths(views_of(entries@), views_of(allowed@)))),
{
    let filtered = filter_entries(entries, allowed);
    let sorted = sort_entries(filtered);
    let mut r: Vec<Track> = Vec::new();
    let mut k: usize = 0;
    while k < sorted.len()
        invariant
            k <= sorted@.len(),
            r@.len() == k,
            forall|i: int|
                0 <= i < k ==> (#[trigger] r@[i]).ord == i && r@[i].path@ == views_of(sorted@)[i],
        decreases sorted@.len() - k,
    {
        let path = sorted[k].clone();
        r.push(Track { ord: k, path });
        k = k + 1;
    }
    r
}

} // verus!
