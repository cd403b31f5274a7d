use vstd::prelude::*;

use crate::addon::{kind_ids, AddonID, LocalAddon, LocalAddons, KIND_INCOMPATIBLE};

verus! {

/// A reported conflict between two addons; `from` and `to` in either order name the same one.
#[derive(Clone, Copy, Debug, PartialEq, Eq, Structural)]
pub struct Incompat {
    pub from: AddonID,
    pub to: AddonID,
}

/// Whether `a`'s installed file declares `b` incompatible.
pub open spec fn declares_incompatible(a: LocalAddon, b: LocalAddon) -> bool {
    &&& a.installed is Some
    &&& kind_ids(a.installed->0.dependencies@, KIND_INCOMPATIBLE).contains(b.id)
}

/// Whether two distinct installed records conflict, in either direction.
pub open spec fn conflicts(a: LocalAddon, b: LocalAddon) -> bool {
    &&& a.id != b.id
    &&& a.installed is Some
    &&& b.installed is Some
    &&& (declares_incompatible(a, b) || declares_incompatible(b, a))
}

/// The unordered pair `{x, y}`.
pub open spec fn same_pair(p: Incompat, x: AddonID, y: AddonID) -> bool {
    (p.from == x && p.to == y) || (p.from == y && p.to == x)
}

/// Whether some entry of `out` is the pair `{x, y}`.
pub open spec fn covered(out: Seq<Incompat>, x: AddonID, y: AddonID) -> bool {
    exists|k: int| 0 <= k < out.len() && same_pair(#[trigger] out[k], x, y)
}

/// Whether `{x, y}` is a conflict between one of `ours` and one of `ours` or `addons`.
pub open spec fn reported(ours: Seq<LocalAddon>, addons: Seq<LocalAddon>, x: AddonID, y: AddonID) -> bool {
    exists|i: int, j: int|
        0 <= i < ours.len() && 0 <= j < addons.len() + ours.len()
            && conflicts(#[trigger] ours[i], #[trigger] (addons + ours)[j])
            && same_pair(Incompat { from: ours[i].id, to: (addons + ours)[j].id }, x, y)
}

/// `out` lists exactly the conflicts between `ours` and `ours` or `addons`, each pair once.
pub open spec fn conflicts_exact(out: Seq<Incompat>, ours: Seq<LocalAddon>, addons: Seq<LocalAddon>) -> bool {
    &&& pairs_distinct(out)
    &&& forall|k: int| 0 <= k < out.len() ==> reported(ours, addons, #[trigger] out[k].from, out[k].to)
    &&& forall|i: int, j: int|
        0 <= i < ours.len() && 0 <= j < addons.len() + ours.len()
            && conflicts(#[trigger] ours[i], #[trigger] (addons + ours)[j])
            ==> covered(out, ours[i].id, (addons + ours)[j].id)
}

/// No unordered pair occurs twice.
pub open spec fn pairs_distinct(out: Seq<Incompat>) -> bool {
    forall|k: int, l: int|
        0 <= k < out.len() && 0 <= l < out.len() && k != l
            ==> !same_pair(#[trigger] out[k], #[trigger] out[l].from, out[l].to)
}

fn contains_id(v: &Vec<AddonID>, x: AddonID) -> (r: bool)
    ensures
        r == v@.contains(x),
{
    let mut i: usize = 0;
    while i < v.len()
        invariant
            i <= v@.len(),
            forall|k: int| 0 <= k < i ==> v@[k] != x,
        decreases v@.len() - i,
    {
        if v[i] == x {
            assert(v@[i as int] == x);
            return true;
        }
        i = i + 1;
    }
    false
}

fn conflict_between(a: &LocalAddon, b: &LocalAddon) -> (r: bool)
    ensures
        r == conflicts(*a, *b),
{
    if a.id == b.id {
        return false;
    }
    match (&a.installed, &b.installed) {
        (Some(fa), Some(fb)) => {
            let ia = fa.dependencies.iter_incompatible();
            let ib = fb.dependencies.iter_incompatible();
            contains_id(&ia, b.id) || contains_id(&ib, a.id)
        },
        _ => false,
    }
}

fn is_covered(out: &Vec<Incompat>, x: AddonID, y: AddonID) -> (r: bool)
    ensures
        r == covered(out@, x, y),
{
    let mut k: usize = 0;
    while k < out.len()
        invariant
            k <= out@.len(),
            forall|l: int| 0 <= l < k ==> !same_pair(#[trigger] out@[l], x, y),
        decreases out@.len() - k,
    {
        let p = out[k];
        if (p.from == x && p.to == y) || (p.from == y && p.to == x) {
            assert(same_pair(out@[k as int], x, y));
            return true;
        }
        k = k + 1;
    }
    false
}

/// Adds `{x, y}` unless it is there already.
fn add_pair(out: &mut Vec<Incompat>, x: AddonID, y: AddonID)
    requires
        pairs_distinct(old(out)@),
    ensures
        pairs_distinct(final(out)@),
        covered(final(out)@, x, y),
        forall|a: AddonID, b: AddonID| covered(old(out)@, a, b) ==> #[trigger] covered(final(out)@, a, b),
        forall|k: int| 0 <= k < final(out)@.len() ==> (k < old(out)@.len() && #[trigger] final(out)@[k] == old(out)@[k])
            || same_pair(final(out)@[k], x, y),
{
    if !is_covered(out, x, y) {
        out.push(Incompat { from: x, to: y });
        let ghost n = old(out)@.len() as int;
        assert(same_pair(final(out)@[n], x, y));
        assert forall|a: AddonID, b: AddonID| covered(old(out)@, a, b) implies #[trigger] covered(final(out)@, a, b) by {
            let k = choose|k: int| 0 <= k < old(out)@.len() && same_pair(#[trigger] old(out)@[k], a, b);
            assert(final(out)@[k] == old(out)@[k]);
        }
        assert forall|k: int, l: int|
            0 <= k < final(out)@.len() && 0 <= l < final(out)@.len() && k != l
                implies !same_pair(#[trigger] final(out)@[k], #[trigger] final(out)@[l].from, final(out)@[l].to) by {
            if k < n && l < n {
                assert(final(out)@[k] == old(out)@[k]);
                assert(final(out)@[l] == old(out)@[l]);
            } else if k < n {
                assert(final(out)@[k] == old(out)@[k]);
                if same_pair(final(out)@[k], final(out)@[l].from, final(out)@[l].to) {
                    assert(same_pair(old(out)@[k], x, y));
                }
            } else {
                assert(final(out)@[l] == old(out)@[l]);
                if same_pair(final(out)@[k], final(out)@[l].from, final(out)@[l].to) {
                    assert(same_pair(old(out)@[l], x, y));
                }
            }
        }
    } else {
        assert(final(out)@ == old(out)@);
    }
}

/// The conflicts between the records to install (`ours`) and the records of the local set or
/// of `ours`, each unordered pair once.
pub fn check_incompatibility_3(ours: &[LocalAddon], addons: &LocalAddons) -> (r: Vec<Incompat>)
    ensures
        conflicts_exact(r@, ours@, addons@),
        pairs_distinct(r@),
        forall|k: int| 0 <= k < r@.len() ==> reported(ours@, addons@, #[trigger] r@[k].from, r@[k].to),
        forall|i: int, j: int|
            0 <= i < ours@.len() && 0 <= j < addons@.len() + ours@.len()
                && conflicts(#[trigger] ours@[i], #[trigger] (addons@ + ours@)[j])
                ==> covered(r@, ours@[i].id, (addons@ + ours@)[j].id),
{
    let ghost all = addons@ + ours@;
    let ghost na = addons@.len() as int;
    let mut out: Vec<Incompat> = Vec::new();
    let mut i: usize = 0;
    while i < ours.len()
        invariant
            i <= ours@.len(),
            all == addons@ + ours@,
            na == addons@.len(),
            pairs_distinct(out@),
            forall|k: int| 0 <= k < out@.len() ==> reported(ours@, addons@, #[trigger] out@[k].from, out@[k].to),
            forall|i2: int, j: int|
                0 <= i2 < i && 0 <= j < all.len() && conflicts(#[trigger] ours@[i2], #[trigger] all[j])
                    ==> covered(out@, ours@[i2].id, all[j].id),
        decreases ours@.len() - i,
    {
        let a = &ours[i];
        let mut j: usize = 0;
        while j < addons.0.len()
            invariant
                i < ours@.len(),
                j <= na,
                *a == ours@[i as int],
                all == addons@ + ours@,
                na == addons@.len(),
                pairs_distinct(out@),
                forall|k: int| 0 <= k < out@.len() ==> reported(ours@, addons@, #[trigger] out@[k].from, out@[k].to),
                forall|i2: int, j2: int|
                    0 <= i2 < i && 0 <= j2 < all.len() && conflicts(#[trigger] ours@[i2], #[trigger] all[j2])
                        ==> covered(out@, ours@[i2].id, all[j2].id),
                forall|j2: int| 0 <= j2 < j && conflicts(ours@[i as int], #[trigger] all[j2])
                    ==> covered(out@, ours@[i as int].id, all[j2].id),
            decreases na - j,
        {
            let b = &addons.0[j];
            assert(*b == all[j as int]);
            if conflict_between(a, b) {
                let ghost prev = out@;
                add_pair(&mut out, a.id, b.id);
                assert forall|k: int| 0 <= k < out@.len() implies reported(ours@, addons@, #[trigger] out@[k].from, out@[k].to) by {
                    if k < prev.len() && out@[k] == prev[k] {
                    } else {
                        assert(conflicts(ours@[i as int], all[j as int]));
                    }
                }
            }
            j = j + 1;
        }
        let mut j2: usize = 0;
        while j2 < ours.len()
            invariant
                i < ours@.len(),
                j2 <= ours@.len(),
                *a == ours@[i as int],
                all == addons@ + ours@,
                na == addons@.len(),
                pairs_distinct(out@),
                forall|k: int| 0 <= k < out@.len() ==> reported(ours@, addons@, #[trigger] out@[k].from, out@[k].to),
                forall|i2: int, j3: int|
                    0 <= i2 < i && 0 <= j3 < all.len() && conflicts(#[trigger] ours@[i2], #[trigger] all[j3])
                        ==> covered(out@, ours@[i2].id, all[j3].id),
                forall|j3: int| 0 <= j3 < na + j2 && conflicts(ours@[i as int], #[trigger] all[j3])
                    ==> covered(out@, ours@[i as int].id, all[j3].id),
            decreases ours@.len() - j2,
        {
            let b = &ours[j2];
            assert(*b == all[na + j2 as int]);
            if conflict_between(a, b) {
                let ghost prev = out@;
                add_pair(&mut out, a.id, b.id);
                assert forall|k: int| 0 <= k < out@.len() implies reported(ours@, addons@, #[trigger] out@[k].from, out@[k].to) by {
                    if k < prev.len() && out@[k] == prev[k] {
                    } else {
                        assert(conflicts(ours@[i as int], all[na + j2 as int]));
                    }
                }
            }
            j2 = j2 + 1;
        }
        i = i + 1;
    }
    out
}

/// A conflict declared by one side only is reported whichever side is being installed.
pub proof fn lemma_incompat_symmetric(a: LocalAddon, b: LocalAddon)
    requires
        a.id != b.id,
        b.installed is Some,
        declares_incompatible(a, b),
    ensures
        conflicts(a, b),
        conflicts(b, a),
        reported(seq![a], seq![b], a.id, b.id),
        reported(seq![b], seq![a], a.id, b.id),
{
    assert((seq![b] + seq![a])[0] == b);
    assert((seq![a] + seq![b])[0] == a);
    assert(conflicts(seq![a][0], (seq![b] + seq![a])[0]));
    assert(conflicts(seq![b][0], (seq![a] + seq![b])[0]));
}

} // verus!
