//! Resolution of relative import paths.

use vstd::prelude::*;
use vstd::slice::slice_subrange;

use super::text::{str_chars, string_push};

verus! {

/// The pieces of `s` between the `/` separators, as `str::split('/')`
/// yields them: `n` separators give `n + 1` pieces, some of them empty.
pub open spec fn split_slash(s: Seq<char>) -> Seq<Seq<char>>
    decreases s.len(),
{
    if s.len() == 0 {
        seq![Seq::<char>::empty()]
    } else {
        let prev = split_slash(s.drop_last());
        if s.last() == '/' {
            prev.push(Seq::<char>::empty())
        } else {
            prev.update(prev.len() - 1, prev.last().push(s.last()))
        }
    }
}

/// A resolution state: the kept path segments and the number of leading
/// `../` that could not be cancelled.
pub type PathState = (Seq<Seq<char>>, nat);

/// Applies one path piece: empty pieces and `.` are ignored, `..` drops the
/// last kept segment (or, with nothing to drop outside a root path, counts
/// one more leading `../`), anything else is kept.
pub open spec fn step(st: PathState, seg: Seq<char>, from_root: bool) -> PathState {
    if seg.len() == 0 || seg == seq!['.'] {
        st
    } else if seg == seq!['.', '.'] {
        if st.0.len() > 0 {
            (st.0.drop_last(), st.1)
        } else if from_root {
            st
        } else {
            (st.0, st.1 + 1)
        }
    } else {
        (st.0.push(seg), st.1)
    }
}

/// Applies all `segs`, first to last.
pub open spec fn walk(st: PathState, segs: Seq<Seq<char>>, from_root: bool) -> PathState
    decreases segs.len(),
{
    if segs.len() == 0 {
        st
    } else {
        step(walk(st, segs.drop_last(), from_root), segs.last(), from_root)
    }
}

/// `n` copies of `../`.
pub open spec fn parents(n: nat) -> Seq<char>
    decreases n,
{
    if n == 0 {
        Seq::<char>::empty()
    } else {
        parents((n - 1) as nat) + seq!['.', '.', '/']
    }
}

/// The segments joined with `/`.
pub open spec fn join_slash(segs: Seq<Seq<char>>) -> Seq<char>
    decreases segs.len(),
{
    if segs.len() == 0 {
        Seq::<char>::empty()
    } else if segs.len() == 1 {
        segs[0]
    } else {
        join_slash(segs.drop_last()) + seq!['/'] + segs.last()
    }
}

/// Whether `s` starts with `/`.
pub open spec fn rooted(s: Seq<char>) -> bool {
    s.len() > 0 && s[0] == '/'
}

/// The path of `rel` seen from the file `base`.
///
/// A `rel` that starts with `/` is taken from the root and ignores `base`.
/// Otherwise the directory of `base` (its segments without the last one) is
/// the starting point. `.` and empty segments vanish, `..` cancels the
/// segment before it; a `..` with nothing to cancel is kept as a leading
/// `../`, unless the path is rooted (`base` or `rel` starts with `/`). The
/// result has no leading `/`.
pub open spec fn spec_resolve(base: Seq<char>, rel: Seq<char>) -> Seq<char> {
    let st = resolved_state(base, rel);
    parents(st.1) + join_slash(st.0)
}

/// The kept segments and the count of leading `../` of the path of `rel`
/// seen from the file `base`.
pub open spec fn resolved_state(base: Seq<char>, rel: Seq<char>) -> PathState {
    let from_root = rooted(base) || rooted(rel);
    let empty: PathState = (Seq::<Seq<char>>::empty(), 0);
    let st0 = if rooted(rel) {
        empty
    } else {
        walk(empty, split_slash(base), from_root)
    };
    let main = if rooted(rel) {
        rel.drop_first()
    } else {
        rel
    };
    let st1: PathState = (
        if st0.0.len() > 0 {
            st0.0.drop_last()
        } else {
            st0.0
        },
        st0.1,
    );
    walk(st1, split_slash(main), from_root)
}

/// The chars of each segment.
pub open spec fn seg_view(v: Seq<Vec<char>>) -> Seq<Seq<char>> {
    v.map_values(|s: Vec<char>| s@)
}

fn apply_segment(slices: &mut Vec<Vec<char>>, extra: &mut usize, seg: &[char], from_root: bool)
    requires
        *old(extra) + seg@.len() <= usize::MAX,
    ensures
        (seg_view(final(slices)@), *final(extra) as nat) == step(
            (seg_view(old(slices)@), *old(extra) as nat),
            seg@,
            from_root,
        ),
        *final(extra) <= *old(extra) + seg@.len(),
{
    let ghost before = seg_view(slices@);
    if seg.len() == 0 || (seg.len() == 1 && seg[0] == '.') {
        assert(seg.len() == 1 ==> seg@ =~= seq!['.']);
    } else if seg.len() == 2 && seg[0] == '.' && seg[1] == '.' {
        assert(seg@ =~= seq!['.', '.']);
        if slices.len() > 0 {
            slices.pop();
            assert(seg_view(slices@) =~= before.drop_last());
        } else if !from_root {
            *extra = *extra + 1;
        }
    } else {
        assert(seg@ != seq!['.']) by {
            if seg@ =~= seq!['.'] {
                assert(seg.len() == 1);
            }
        }
        assert(seg@ != seq!['.', '.']) by {
            if seg@ =~= seq!['.', '.'] {
                assert(seg.len() == 2 && seg@[0] == '.' && seg@[1] == '.');
            }
        }
        slices.push(vstd::slice::slice_to_vec(seg));
        assert(seg_view(slices@) =~= before.push(seg@));
    }
}

proof fn lemma_split_nonempty(s: Seq<char>)
    ensures
        split_slash(s).len() >= 1,
    decreases s.len(),
{
    if s.len() > 0 {
        lemma_split_nonempty(s.drop_last());
    }
}

fn walk_segments(chars: &[char], slices: &mut Vec<Vec<char>>, extra: &mut usize, from_root: bool)
    requires
        *old(extra) + chars@.len() <= usize::MAX,
    ensures
        (seg_view(final(slices)@), *final(extra) as nat) == walk(
            (seg_view(old(slices)@), *old(extra) as nat),
            split_slash(chars@),
            from_root,
        ),
        *final(extra) <= *old(extra) + chars@.len(),
{
    let ghost init: PathState = (seg_view(slices@), *extra as nat);
    let ghost init_extra: int = *extra as int;
    let mut cur: Vec<char> = Vec::new();
    let mut i: usize = 0;
    proof {
        assert(chars@.take(0) =~= Seq::<char>::empty());
        assert(split_slash(Seq::<char>::empty()).drop_last() =~= Seq::<Seq<char>>::empty());
    }
    while i < chars.len()
        invariant
            i <= chars@.len(),
            init_extra + chars@.len() <= usize::MAX,
            walk(init, split_slash(chars@.take(i as int)).drop_last(), from_root) == (
                seg_view(slices@),
                *extra as nat,
            ),
            split_slash(chars@.take(i as int)).len() >= 1,
            cur@ == split_slash(chars@.take(i as int)).last(),
            *extra + cur@.len() <= init_extra + i,
        decreases chars@.len() - i,
    {
        let c = chars[i];
        let ghost pre = chars@.take(i as int);
        let ghost next = chars@.take(i + 1);
        proof {
            assert(next.drop_last() =~= pre);
            assert(next.last() == c);
            lemma_split_nonempty(pre);
        }
        if c == '/' {
            apply_segment(slices, extra, cur.as_slice(), from_root);
            cur = Vec::new();
            proof {
                let sp = split_slash(pre);
                assert(split_slash(next) == sp.push(Seq::<char>::empty()));
                assert(split_slash(next).drop_last() =~= sp);
                assert(sp =~= sp.drop_last().push(sp.last()));
                assert(cur@ =~= split_slash(next).last());
            }
        } else {
            cur.push(c);
            proof {
                let sp = split_slash(pre);
                let sn = split_slash(next);
                assert(sn == sp.update(sp.len() - 1, sp.last().push(c)));
                assert(sn.drop_last() =~= sp.drop_last());
            }
        }
        i = i + 1;
    }
    proof {
        assert(chars@.take(i as int) =~= chars@);
        let sp = split_slash(chars@);
        assert(sp =~= sp.drop_last().push(sp.last()));
    }
    apply_segment(slices, extra, cur.as_slice(), from_root);
}

/// Resolves `rel` against the file path `base`; see [`spec_resolve`].
pub fn resolve(base: &str, rel: &str) -> (r: String)
    requires
        base@.len() + rel@.len() <= usize::MAX,
    ensures
        r@ == spec_resolve(base@, rel@),
{
    let b = str_chars(base);
    let rl = str_chars(rel);
    let mut slices: Vec<Vec<char>> = Vec::new();
    let mut extra: usize = 0;
    let base_rooted = b.len() > 0 && b[0] == '/';
    let rel_rooted = rl.len() > 0 && rl[0] == '/';
    let from_root = base_rooted || rel_rooted;
    proof {
        assert(seg_view(slices@) =~= Seq::<Seq<char>>::empty());
    }
    let main: &[char] = if rel_rooted {
        slice_subrange(rl.as_slice(), 1, rl.len())
    } else {
        walk_segments(b.as_slice(), &mut slices, &mut extra, from_root);
        rl.as_slice()
    };
    let ghost st0 = (seg_view(slices@), extra as nat);
    let ghost slices_before_pop = slices@;
    slices.pop();
    proof {
        if slices_before_pop.len() > 0 {
            assert(seg_view(slices@) =~= seg_view(slices_before_pop).drop_last());
        }
        if rel_rooted {
            assert(main@ =~= rel@.drop_first());
        }
    }
    walk_segments(main, &mut slices, &mut extra, from_root);
    let mut out = String::new();
    let mut k: usize = 0;
    while k < extra
        invariant
            k <= extra,
            out@ == parents(k as nat),
        decreases extra - k,
    {
        string_push(&mut out, '.');
        string_push(&mut out, '.');
        string_push(&mut out, '/');
        k = k + 1;
        assert(out@ =~= parents(k as nat));
    }
    let ghost prefix = out@;
    let ghost segs = seg_view(slices@);
    let mut j: usize = 0;
    proof {
        assert(segs.take(0) =~= Seq::<Seq<char>>::empty());
        assert(out@ =~= prefix + join_slash(segs.take(0)));
    }
    while j < slices.len()
        invariant
            j <= slices@.len(),
            segs == seg_view(slices@),
            out@ == prefix + join_slash(segs.take(j as int)),
        decreases slices@.len() - j,
    {
        let ghost before = out@;
        if j > 0 {
            string_push(&mut out, '/');
        }
        let seg = &slices[j];
        let ghost mid = out@;
        let mut m: usize = 0;
        while m < seg.len()
            invariant
                m <= seg@.len(),
                out@ == mid + seg@.take(m as int),
            decreases seg@.len() - m,
        {
            string_push(&mut out, seg[m]);
            m = m + 1;
            assert(out@ =~= mid + seg@.take(m as int));
        }
        proof {
            assert(seg@.take(seg@.len() as int) =~= seg@);
            assert(segs[j as int] == seg@);
            let t = segs.take(j + 1);
            assert(t.drop_last() =~= segs.take(j as int));
            assert(t.last() == seg@);
            if j == 0 {
                assert(t.len() == 1);
                assert(out@ =~= prefix + join_slash(t));
            } else {
                assert(out@ =~= prefix + join_slash(t));
            }
        }
        j = j + 1;
    }
    proof {
        assert(segs.take(slices@.len() as int) =~= segs);
    }
    out
}


/// A segment that survives resolution: not empty, not `.` or `..`, and free
/// of `/`.
pub open spec fn normal_segment(seg: Seq<char>) -> bool {
    &&& seg.len() > 0
    &&& seg != seq!['.']
    &&& seg != seq!['.', '.']
    &&& !seg.contains('/')
}

/// All segments are normal.
pub open spec fn all_normal(segs: Seq<Seq<char>>) -> bool {
    forall|i: int| 0 <= i < segs.len() ==> normal_segment(#[trigger] segs[i])
}

proof fn lemma_split_no_slash(s: Seq<char>)
    ensures
        forall|i: int|
            0 <= i < split_slash(s).len() ==> !(#[trigger] split_slash(s)[i]).contains('/'),
    decreases s.len(),
{
    if s.len() > 0 {
        lemma_split_no_slash(s.drop_last());
        lemma_split_nonempty(s.drop_last());
        let prev = split_slash(s.drop_last());
        if s.last() != '/' {
            let l = prev.last().push(s.last());
            assert forall|j: int| 0 <= j < l.len() implies l[j] != '/' by {
                if j < prev.last().len() {
                    assert(l[j] == prev.last()[j]);
                    assert(!prev[prev.len() - 1].contains('/'));
                    if prev.last()[j] == '/' {
                        assert(prev.last().contains('/'));
                    }
                }
            }
            assert(!l.contains('/'));
        } else {
            assert(!Seq::<char>::empty().contains('/'));
        }
    }
}

proof fn lemma_walk_normal(st: PathState, segs: Seq<Seq<char>>, from_root: bool)
    requires
        all_normal(st.0),
        forall|i: int| 0 <= i < segs.len() ==> !(#[trigger] segs[i]).contains('/'),
    ensures
        all_normal(walk(st, segs, from_root).0),
        from_root ==> walk(st, segs, from_root).1 == st.1,
    decreases segs.len(),
{
    if segs.len() > 0 {
        assert forall|i: int| 0 <= i < segs.drop_last().len() implies !(
        #[trigger] segs.drop_last()[i]).contains('/') by {
            assert(segs.drop_last()[i] == segs[i]);
        }
        lemma_walk_normal(st, segs.drop_last(), from_root);
        let prev = walk(st, segs.drop_last(), from_root);
        let seg = segs.last();
        assert(!segs[segs.len() - 1].contains('/'));
        let next = step(prev, seg, from_root);
        assert forall|i: int| 0 <= i < next.0.len() implies normal_segment(#[trigger] next.0[i]) by {
            if seg.len() == 0 || seg == seq!['.'] {
            } else if seg == seq!['.', '.'] {
                if prev.0.len() > 0 {
                    assert(next.0[i] == prev.0[i]);
                }
            } else {
                if i < prev.0.len() {
                    assert(next.0[i] == prev.0[i]);
                }
            }
        }
    }
}

/// Resolution normalizes: every kept segment is non-empty, free of `/`, and
/// neither `.` nor `..`; and a rooted path (`base` or `rel` starting with
/// `/`) never gets a leading `../`.
pub proof fn law_resolve_normalizes(base: Seq<char>, rel: Seq<char>)
    ensures
        all_normal(resolved_state(base, rel).0),
        (rooted(base) || rooted(rel)) ==> resolved_state(base, rel).1 == 0,
{
    let from_root = rooted(base) || rooted(rel);
    let empty: PathState = (Seq::<Seq<char>>::empty(), 0);
    lemma_split_no_slash(base);
    let main = if rooted(rel) {
        rel.drop_first()
    } else {
        rel
    };
    lemma_split_no_slash(main);
    lemma_walk_normal(empty, split_slash(base), from_root);
    let st0 = if rooted(rel) {
        empty
    } else {
        walk(empty, split_slash(base), from_root)
    };
    let st1: PathState = (
        if st0.0.len() > 0 {
            st0.0.drop_last()
        } else {
            st0.0
        },
        st0.1,
    );
    assert(all_normal(st1.0)) by {
        assert forall|i: int| 0 <= i < st1.0.len() implies normal_segment(#[trigger] st1.0[i]) by {
            assert(st1.0[i] == st0.0[i]);
        }
    }
    lemma_walk_normal(st1, split_slash(main), from_root);
}

/// A path that starts with `/` does not depend on the base path.
pub proof fn law_rooted_ignores_base(base1: Seq<char>, base2: Seq<char>, rel: Seq<char>)
    requires
        rooted(rel),
    ensures
        spec_resolve(base1, rel) == spec_resolve(base2, rel),
{
}


proof fn lemma_split_plain(l: Seq<char>)
    requires
        !l.contains('/'),
    ensures
        split_slash(l) == seq![l],
    decreases l.len(),
{
    if l.len() > 0 {
        assert(!l.drop_last().contains('/')) by {
            if l.drop_last().contains('/') {
                let j = choose|j: int| 0 <= j < l.drop_last().len() && l.drop_last()[j] == '/';
                assert(l[j] == '/');
            }
        }
        lemma_split_plain(l.drop_last());
        assert(l.last() != '/') by {
            assert(l[l.len() - 1] == l.last());
        }
        assert(l.drop_last().push(l.last()) =~= l);
        let prev = split_slash(l.drop_last());
        assert(prev == seq![l.drop_last()]);
        assert(prev.len() == 1);
        assert(prev.last() == l.drop_last());
        assert(split_slash(l) == prev.update(prev.len() - 1, prev.last().push(l.last())));
        assert(seq![l.drop_last()].update(0, l.drop_last().push(l.last())) =~= seq![l]);
    } else {
        assert(l =~= Seq::<char>::empty());
    }
}

proof fn lemma_split_after_slash(a: Seq<char>, l: Seq<char>)
    requires
        !l.contains('/'),
    ensures
        split_slash(a + seq!['/'] + l) == split_slash(a).push(l),
    decreases l.len(),
{
    if l.len() == 0 {
        let whole = a + seq!['/'] + l;
        assert(whole =~= a.push('/'));
        assert(whole.drop_last() =~= a);
        assert(whole.last() == '/');
        assert(l =~= Seq::<char>::empty());
        assert(split_slash(whole) == split_slash(whole.drop_last()).push(Seq::<char>::empty()));
    } else {
        let l0 = l.drop_last();
        assert(!l0.contains('/')) by {
            if l0.contains('/') {
                let j = choose|j: int| 0 <= j < l0.len() && l0[j] == '/';
                assert(l[j] == '/');
            }
        }
        lemma_split_after_slash(a, l0);
        let whole = a + seq!['/'] + l;
        assert(whole.drop_last() =~= a + seq!['/'] + l0);
        assert(whole.last() == l.last());
        assert(l.last() != '/') by {
            assert(l[l.len() - 1] == l.last());
        }
        assert(l0.push(l.last()) =~= l);
        assert(split_slash(a).push(l0).update(split_slash(a).len() as int, l) =~= split_slash(
            a,
        ).push(l));
    }
}

proof fn lemma_split_join(segs: Seq<Seq<char>>)
    requires
        segs.len() > 0,
        all_normal(segs),
    ensures
        split_slash(join_slash(segs)) == segs,
    decreases segs.len(),
{
    if segs.len() == 1 {
        assert(normal_segment(segs[0]));
        lemma_split_plain(segs[0]);
        assert(seq![segs[0]] =~= segs);
    } else {
        let init = segs.drop_last();
        assert(all_normal(init)) by {
            assert forall|i: int| 0 <= i < init.len() implies normal_segment(#[trigger] init[i]) by {
                assert(init[i] == segs[i]);
            }
        }
        lemma_split_join(init);
        assert(normal_segment(segs[segs.len() - 1]));
        lemma_split_after_slash(join_slash(init), segs.last());
        assert(init.push(segs.last()) =~= segs);
    }
}

proof fn lemma_walk_pushes(segs: Seq<Seq<char>>, from_root: bool)
    requires
        all_normal(segs),
    ensures
        walk((Seq::<Seq<char>>::empty(), 0), segs, from_root) == (segs, 0nat),
    decreases segs.len(),
{
    if segs.len() > 0 {
        let init = segs.drop_last();
        assert(all_normal(init)) by {
            assert forall|i: int| 0 <= i < init.len() implies normal_segment(#[trigger] init[i]) by {
                assert(init[i] == segs[i]);
            }
        }
        lemma_walk_pushes(init, from_root);
        assert(normal_segment(segs[segs.len() - 1]));
        assert(init.push(segs.last()) =~= segs);
    }
}

/// Resolution is idempotent: a resolved path without leading `../`,
/// resolved again from the root, stays the same.
pub proof fn law_resolve_idempotent(base: Seq<char>, rel: Seq<char>, other: Seq<char>)
    requires
        resolved_state(base, rel).1 == 0,
    ensures
        spec_resolve(other, seq!['/'] + spec_resolve(base, rel)) == spec_resolve(base, rel),
{
    law_resolve_normalizes(base, rel);
    let st = resolved_state(base, rel);
    let p = spec_resolve(base, rel);
    assert(parents(0) =~= Seq::<char>::empty());
    assert(p =~= join_slash(st.0));
    let rel2 = seq!['/'] + p;
    assert(rooted(rel2));
    assert(rel2.drop_first() =~= p);
    let empty: PathState = (Seq::<Seq<char>>::empty(), 0);
    if st.0.len() == 0 {
        assert(p =~= Seq::<char>::empty());
        let one = seq![Seq::<char>::empty()];
        assert(split_slash(p) == one);
        assert(one.drop_last() =~= Seq::<Seq<char>>::empty());
        assert(walk(empty, one.drop_last(), true) == empty);
        assert(one.last().len() == 0);
        assert(walk(empty, one, true) == step(empty, one.last(), true));
        assert(walk(empty, split_slash(p), true) == empty);
    } else {
        lemma_split_join(st.0);
        lemma_walk_pushes(st.0, true);
    }
}

} // verus!
