//! Cameras: the list of `/dev/video*` nodes that the front end offers.
use vstd::prelude::*;
use crate::text::{chars_of, push_all, starts_with, starts_with_exec};
use crate::stdcalls::string_of;

verus! {

broadcast use vstd::seq_lib::group_to_multiset_ensures;

/// The order of `String`: lexicographic by character. (UTF-8 keeps the order
/// of code points, so this is also the byte order that `String` compares by.)
pub open spec fn lex_le(a: Seq<char>, b: Seq<char>) -> bool
    decreases a.len(),
{
    if a.len() == 0 {
        true
    } else if b.len() == 0 {
        false
    } else if a[0] == b[0] {
        lex_le(a.drop_first(), b.drop_first())
    } else {
        a[0] < b[0]
    }
}

pub proof fn lemma_lex_total(a: Seq<char>, b: Seq<char>)
    ensures
        lex_le(a, b) || lex_le(b, a),
    decreases a.len(),
{
    if a.len() > 0 && b.len() > 0 && a[0] == b[0] {
        lemma_lex_total(a.drop_first(), b.drop_first());
    }
}

pub proof fn lemma_lex_refl(a: Seq<char>)
    ensures
        lex_le(a, a),
    decreases a.len(),
{
    if a.len() > 0 {
        lemma_lex_refl(a.drop_first());
    }
}

pub proof fn lemma_lex_trans(a: Seq<char>, b: Seq<char>, c: Seq<char>)
    requires
        lex_le(a, b),
        lex_le(b, c),
    ensures
        lex_le(a, c),
    decreases a.len(),
{
    if a.len() > 0 && b.len() > 0 && c.len() > 0 && a[0] == b[0] && b[0] == c[0] {
        lemma_lex_trans(a.drop_first(), b.drop_first(), c.drop_first());
    }
}

pub fn lex_le_exec(a: &Vec<char>, b: &Vec<char>) -> (r: bool)
    ensures
        r == lex_le(a@, b@),
{
    let mut i: usize = 0;
    assert(a@.skip(0) =~= a@);
    assert(b@.skip(0) =~= b@);
    while i < a.len() && i < b.len() && a[i] == b[i]
        invariant
            i <= a.len(),
            i <= b.len(),
            lex_le(a@, b@) == lex_le(a@.skip(i as int), b@.skip(i as int)),
        decreases a.len() - i,
    {
        assert(a@.skip(i as int).drop_first() =~= a@.skip(i + 1));
        assert(b@.skip(i as int).drop_first() =~= b@.skip(i + 1));
        i = i + 1;
    }
    if i == a.len() {
        true
    } else if i == b.len() {
        false
    } else {
        assert(a@.skip(i as int)[0] == a@[i as int]);
        assert(b@.skip(i as int)[0] == b@[i as int]);
        a[i] < b[i]
    }
}

/// Sorted by `lex_le`.
pub open spec fn sorted(s: Seq<Seq<char>>) -> bool {
    forall|i: int, j: int| 0 <= i < j < s.len() ==> lex_le(#[trigger] s[i], #[trigger] s[j])
}

/// An entry of `/dev` that is a camera node.
pub open spec fn video_entry(name: Seq<char>) -> bool {
    starts_with(name, "video"@)
}

/// The camera nodes among the entries of `/dev`, as paths, in any order.
pub open spec fn video_paths(names: Seq<Seq<char>>) -> Seq<Seq<char>> {
    names.filter(|n: Seq<char>| video_entry(n)).map_values(|n: Seq<char>| "/dev/"@ + n)
}

/// The list of cameras: the entries of `/dev` whose names start with
/// `video`, as `/dev/<name>` paths, sorted.
pub fn video_device_list(names: &Vec<String>) -> (r: Vec<String>)
    ensures
        sorted(r@.map_values(|s: String| s@)),
        r@.map_values(|s: String| s@).to_multiset() == video_paths(
            names@.map_values(|s: String| s@),
        ).to_multiset(),
{
    let ghost nv = names@.map_values(|s: String| s@);
    // Collect the camera paths.
    let mut pool: Vec<Vec<char>> = Vec::new();
    let mut i: usize = 0;
    assert(nv.take(0).filter(|n: Seq<char>| video_entry(n)) =~= Seq::<Seq<char>>::empty()) by {
        reveal(Seq::filter);
    }
    while i < names.len()
        invariant
            i <= names.len(),
            nv == names@.map_values(|s: String| s@),
            pool@.map_values(|v: Vec<char>| v@) =~= nv.take(i as int).filter(
                |n: Seq<char>| video_entry(n),
            ).map_values(|n: Seq<char>| "/dev/"@ + n),
        decreases names.len() - i,
    {
        let name = chars_of(names[i].as_str());
        assert(nv[i as int] == name@);
        assert(nv.take(i + 1) =~= nv.take(i as int).push(nv[i as int]));
        proof {
            nv.take(i as int).lemma_filter_push(nv[i as int], |n: Seq<char>| video_entry(n));
        }
        let ghost before = pool@;
        if starts_with_exec(&name, "video") {
            let mut p = chars_of("/dev/");
            push_all(&mut p, &name);
            pool.push(p);
            assert(pool@.map_values(|v: Vec<char>| v@) =~= before.map_values(|v: Vec<char>| v@).push(
                "/dev/"@ + nv[i as int],
            ));
        }
        i = i + 1;
    }
    assert(nv.take(i as int) =~= nv);
    // Selection sort: take the least remaining path each time.
    let ghost all = pool@.map_values(|v: Vec<char>| v@);
    let mut out: Vec<String> = Vec::new();
    assert(out@.map_values(|s: String| s@) =~= Seq::<Seq<char>>::empty());
    while pool.len() > 0
        invariant
            out@.map_values(|s: String| s@).to_multiset().add(
                pool@.map_values(|v: Vec<char>| v@).to_multiset(),
            ) == all.to_multiset(),
            sorted(out@.map_values(|s: String| s@)),
            forall|a: int, b: int|
                0 <= a < out@.len() && 0 <= b < pool@.len() ==> lex_le(
                    #[trigger] out@[a]@,
                    #[trigger] pool@[b]@,
                ),
        decreases pool.len(),
    {
        let mut m: usize = 0;
        let mut k: usize = 1;
        proof {
            lemma_lex_refl(pool@[0]@);
        }
        while k < pool.len()
            invariant
                m < pool.len(),
                1 <= k <= pool.len(),
                forall|b: int| 0 <= b < k ==> lex_le(pool@[m as int]@, #[trigger] pool@[b]@),
            decreases pool.len() - k,
        {
            if !lex_le_exec(&pool[m], &pool[k]) {
                proof {
                    lemma_lex_total(pool@[m as int]@, pool@[k as int]@);
                    assert forall|b: int| 0 <= b < k + 1 implies lex_le(pool@[k as int]@, #[trigger] pool@[b]@) by {
                        if b < k {
                            lemma_lex_trans(pool@[k as int]@, pool@[m as int]@, pool@[b]@);
                        } else {
                            lemma_lex_refl(pool@[k as int]@);
                        }
                    }
                }
                m = k;
            }
            k = k + 1;
        }
        let ghost pv = pool@.map_values(|v: Vec<char>| v@);
        let ghost ov = out@.map_values(|s: String| s@);
        let least = pool.remove(m);
        let ghost x = least@;
        proof {
            assert(pool@.map_values(|v: Vec<char>| v@) =~= pv.remove(m as int));
            assert(pv[m as int] == x);
        }
        out.push(string_of(&least));
        proof {
            let ov2 = out@.map_values(|s: String| s@);
            assert(ov2 =~= ov.push(x));
            assert(sorted(ov2)) by {
                assert forall|a: int, b: int| 0 <= a < b < ov2.len() implies lex_le(
                    #[trigger] ov2[a],
                    #[trigger] ov2[b],
                ) by {
                    if b == ov2.len() - 1 {
                        assert(out@[a]@ == ov2[a]);
                        assert(lex_le(out@[a]@, pv[m as int]));
                    } else {
                        assert(ov2[a] == ov[a] && ov2[b] == ov[b]);
                    }
                }
            }
            assert forall|a: int, b: int|
                0 <= a < out@.len() && 0 <= b < pool@.len() implies lex_le(
                    #[trigger] out@[a]@,
                    #[trigger] pool@[b]@,
                ) by {
                let ob = if b < m { b } else { b + 1 };
                assert(pool@[b]@ == pv[ob]);
                if a == out@.len() - 1 {
                    assert(out@[a]@ == x);
                } else {
                    assert(out@[a]@ == ov[a]);
                }
            }
            assert(ov2.to_multiset() =~= ov.to_multiset().insert(x));
            assert(pv.remove(m as int).to_multiset() =~= pv.to_multiset().remove(x));
            assert(pv.to_multiset().count(x) > 0) by {
                assert(pv.contains(x));
            }
            assert(ov2.to_multiset().add(pool@.map_values(|v: Vec<char>| v@).to_multiset())
                =~= ov.to_multiset().add(pv.to_multiset()));
        }
    }
    assert(pool@.map_values(|v: Vec<char>| v@) =~= Seq::<Seq<char>>::empty());
    assert(out@.map_values(|s: String| s@).to_multiset() =~= all.to_multiset());
    out
}

} // verus!
