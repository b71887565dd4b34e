//! Resolutions and the canonical (bounding-box) resolution.

use vstd::prelude::*;
use itertools::Itertools;
use crate::workspace::Output;

verus! {

/// A resolution in pixels; refresh rate is excluded from identity.
#[derive(Clone, Copy, PartialEq, Eq, Structural, Hash, Debug)]
pub struct Resolution {
    pub width: usize,
    pub height: usize,
}

/// The bounding box of a sequence of resolutions, folded from `{0, 0}`:
/// the componentwise maximum of all widths and heights.
pub open spec fn canonical_spec(rs: Seq<Resolution>) -> Resolution
    decreases rs.len(),
{
    if rs.len() == 0 {
        Resolution { width: 0, height: 0 }
    } else {
        let prev = canonical_spec(rs.drop_last());
        Resolution {
            width: if prev.width > rs.last().width {
                prev.width
            } else {
                rs.last().width
            },
            height: if prev.height > rs.last().height {
                prev.height
            } else {
                rs.last().height
            },
        }
    }
}

/// The canonical resolution bounds every resolution in the sequence, and each
/// of its components is attained by some element (or is zero for an empty
/// sequence).
pub proof fn lemma_canonical_is_bounding_box(rs: Seq<Resolution>)
    ensures
        forall|i: int|
            0 <= i < rs.len() ==> (#[trigger] rs[i]).width <= canonical_spec(rs).width
                && rs[i].height <= canonical_spec(rs).height,
        rs.len() > 0 ==> exists|i: int|
            0 <= i < rs.len() && (#[trigger] rs[i]).width == canonical_spec(rs).width,
        rs.len() > 0 ==> exists|i: int|
            0 <= i < rs.len() && (#[trigger] rs[i]).height == canonical_spec(rs).height,
        rs.len() == 0 ==> canonical_spec(rs) == (Resolution { width: 0, height: 0 }),
    decreases rs.len(),
{
    if rs.len() > 0 {
        lemma_canonical_is_bounding_box(rs.drop_last());
        let c = canonical_spec(rs);
        let prev = canonical_spec(rs.drop_last());
        assert(forall|i: int| 0 <= i < rs.len() - 1 ==> rs[i] == rs.drop_last()[i]);
        if rs.len() > 1 {
            if prev.width > rs.last().width {
                let i = choose|i: int|
                    0 <= i < rs.drop_last().len() && (#[trigger] rs.drop_last()[i]).width
                        == prev.width;
                assert(rs[i].width == c.width);
            } else {
                assert(rs[rs.len() - 1].width == c.width);
            }
            if prev.height > rs.last().height {
                let i = choose|i: int|
                    0 <= i < rs.drop_last().len() && (#[trigger] rs.drop_last()[i]).height
                        == prev.height;
                assert(rs[i].height == c.height);
            } else {
                assert(rs[rs.len() - 1].height == c.height);
            }
        } else {
            assert(rs[0].width == c.width);
            assert(rs[0].height == c.height);
        }
    }
}

/// The canonical resolution of a non-empty sequence of resolutions is the
/// componentwise maximum of its elements, so it depends only on which
/// resolutions occur, not on their order or multiplicity: any two sequences
/// holding the same resolutions share one canonical resolution.
pub proof fn lemma_canonical_order_independent(a: Seq<Resolution>, b: Seq<Resolution>)
    requires
        a.to_multiset() == b.to_multiset(),
        a.len() > 0,
    ensures
        canonical_spec(a) == canonical_spec(b),
{
    broadcast use vstd::seq_lib::group_to_multiset_ensures;

    assert(b.len() > 0) by {
        assert(a.to_multiset().len() == a.len());
        assert(b.to_multiset().len() == b.len());
    }
    lemma_canonical_is_bounding_box(a);
    lemma_canonical_is_bounding_box(b);
    let ca = canonical_spec(a);
    let cb = canonical_spec(b);
    assert(ca.width <= cb.width) by {
        let i = choose|i: int| 0 <= i < a.len() && (#[trigger] a[i]).width == ca.width;
        assert(a.contains(a[i]));
        assert(a.to_multiset().count(a[i]) > 0);
        assert(b.to_multiset().count(a[i]) > 0);
        assert(b.contains(a[i]));
        let j = choose|j: int| 0 <= j < b.len() && b[j] == a[i];
        assert(b[j].width <= cb.width);
    }
    assert(cb.width <= ca.width) by {
        let i = choose|i: int| 0 <= i < b.len() && (#[trigger] b[i]).width == cb.width;
        assert(b.contains(b[i]));
        assert(b.to_multiset().count(b[i]) > 0);
        assert(a.to_multiset().count(b[i]) > 0);
        assert(a.contains(b[i]));
        let j = choose|j: int| 0 <= j < a.len() && a[j] == b[i];
        assert(a[j].width <= ca.width);
    }
    assert(ca.height <= cb.height) by {
        let i = choose|i: int| 0 <= i < a.len() && (#[trigger] a[i]).height == ca.height;
        assert(a.contains(a[i]));
        assert(a.to_multiset().count(a[i]) > 0);
        assert(b.to_multiset().count(a[i]) > 0);
        assert(b.contains(a[i]));
        let j = choose|j: int| 0 <= j < b.len() && b[j] == a[i];
        assert(b[j].height <= cb.height);
    }
    assert(cb.height <= ca.height) by {
        let i = choose|i: int| 0 <= i < b.len() && (#[trigger] b[i]).height == cb.height;
        assert(b.contains(b[i]));
        assert(b.to_multiset().count(b[i]) > 0);
        assert(a.to_multiset().count(b[i]) > 0);
        assert(a.contains(b[i]));
        let j = choose|j: int| 0 <= j < a.len() && a[j] == b[i];
        assert(a[j].height <= ca.height);
    }
}

/// Computes the smallest resolution that can contain every resolution in
/// `rs`: the maximum width and the maximum height over all elements, or
/// `{0, 0}` when `rs` is empty.
pub fn canonical_resolution(rs: &Vec<Resolution>) -> (r: Resolution)
    ensures
        r == canonical_spec(rs@),
        forall|i: int|
            0 <= i < rs@.len() ==> (#[trigger] rs@[i]).width <= r.width && rs@[i].height
                <= r.height,
        rs@.len() > 0 ==> exists|i: int|
            0 <= i < rs@.len() && (#[trigger] rs@[i]).width == r.width,
        rs@.len() > 0 ==> exists|i: int|
            0 <= i < rs@.len() && (#[trigger] rs@[i]).height == r.height,
        rs@.len() == 0 ==> r == (Resolution { width: 0, height: 0 }),
{
    let mut acc = Resolution { width: 0, height: 0 };
    let mut i: usize = 0;
    while i < rs.len()
        invariant
            0 <= i <= rs@.len(),
            acc == canonical_spec(rs@.take(i as int)),
        decreases rs@.len() - i,
    {
        let r = rs[i];
        proof {
            assert(rs@.take(i + 1).drop_last() =~= rs@.take(i as int));
            assert(rs@.take(i + 1).last() == rs@[i as int]);
        }
        acc =
        Resolution {
            width: if acc.width > r.width {
                acc.width
            } else {
                r.width
            },
            height: if acc.height > r.height {
                acc.height
            } else {
                r.height
            },
        };
        i = i + 1;
    }
    proof {
        assert(rs@.take(rs@.len() as int) =~= rs@);
        lemma_canonical_is_bounding_box(rs@);
    }
    acc
}

/// `s` with every repeated resolution removed: each distinct resolution is
/// kept once, at the position of its first occurrence.
pub open spec fn dedup_first(s: Seq<Resolution>) -> Seq<Resolution>
    decreases s.len(),
{
    if s.len() == 0 {
        Seq::empty()
    } else {
        let rest = dedup_first(s.drop_last());
        if rest.contains(s.last()) {
            rest
        } else {
            rest.push(s.last())
        }
    }
}

/// The deduplicated sequence holds exactly the resolutions of the input,
/// without repetition.
pub proof fn lemma_dedup_first_elements(s: Seq<Resolution>)
    ensures
        forall|r: Resolution| dedup_first(s).contains(r) <==> s.contains(r),
        forall|i: int, j: int|
            0 <= i < j < dedup_first(s).len() ==> dedup_first(s)[i] != dedup_first(s)[j],
        dedup_first(s).len() <= s.len(),
    decreases s.len(),
{
    if s.len() > 0 {
        lemma_dedup_first_elements(s.drop_last());
        let rest = dedup_first(s.drop_last());
        assert(forall|r: Resolution| s.drop_last().contains(r) ==> s.contains(r)) by {
            assert forall|r: Resolution| s.drop_last().contains(r) implies s.contains(r) by {
                let i = choose|i: int| 0 <= i < s.drop_last().len() && s.drop_last()[i] == r;
                assert(s[i] == r);
            }
        }
        assert forall|r: Resolution| s.contains(r) implies dedup_first(s).contains(r) by {
            let i = choose|i: int| 0 <= i < s.len() && s[i] == r;
            if i < s.len() - 1 {
                assert(s.drop_last()[i] == r);
                assert(s.drop_last().contains(r));
                assert(rest.contains(r));
                if !rest.contains(s.last()) {
                    let j = choose|j: int| 0 <= j < rest.len() && rest[j] == r;
                    assert(rest.push(s.last())[j] == r);
                }
            } else {
                assert(r == s.last());
                if !rest.contains(s.last()) {
                    assert(rest.push(s.last())[rest.len() as int] == r);
                }
            }
        }
    }
}

/// Relies on itertools' `unique` iterator adaptor: it yields each distinct
/// element once, the first time it occurs, preserving the input order.
#[verifier::external_body]
fn dedup_resolutions(v: &Vec<Resolution>) -> (r: Vec<Resolution>)
    ensures
        r@ == dedup_first(v@),
{
    v.iter().cloned().unique().collect()
}

/// The distinct resolutions of a sequence of outputs, in order of first
/// occurrence, preceded by their canonical resolution (which is dropped from
/// its later position if it coincides with a real output's resolution).
pub open spec fn resolution_table_spec(outs: Seq<Output>) -> Seq<Resolution> {
    let distinct = dedup_first(outs.map_values(|o: Output| o.resolution()));
    dedup_first(seq![canonical_spec(distinct)] + distinct)
}

/// Collects the resolutions the capture pipelines will need: the canonical
/// resolution first, then each distinct output resolution that differs from
/// it, in order of first appearance.
pub fn get_resolutions(outputs: &Vec<Output>) -> (r: Vec<Resolution>)
    ensures
        r@ == resolution_table_spec(outputs@),
        r@.len() > 0,
        r@[0] == canonical_spec(
            dedup_first(outputs@.map_values(|o: Output| o.resolution())),
        ),
        forall|i: int, j: int| 0 <= i < j < r@.len() ==> r@[i] != r@[j],
{
    let mut res: Vec<Resolution> = Vec::new();
    let mut i: usize = 0;
    while i < outputs.len()
        invariant
            0 <= i <= outputs@.len(),
            res@ == outputs@.take(i as int).map_values(
                |o: Output| o.resolution(),
            ),
        decreases outputs@.len() - i,
    {
        res.push(
            Resolution {
                width: outputs[i].current_mode.width,
                height: outputs[i].current_mode.height,
            },
        );
        proof {
            assert(outputs@.take(i + 1).drop_last() =~= outputs@.take(i as int));
            assert(outputs@.take(i + 1).map_values(
                |o: Output| o.resolution(),
            ) =~= outputs@.take(i as int).map_values(|o: Output| o.resolution())
                .push(outputs@[i as int].resolution()));
        }
        i = i + 1;
    }
    proof {
        assert(outputs@.take(outputs@.len() as int) =~= outputs@);
    }
    let distinct = dedup_resolutions(&res);
    let canonical = canonical_resolution(&distinct);
    let mut table: Vec<Resolution> = Vec::new();
    table.push(canonical);
    let mut j: usize = 0;
    while j < distinct.len()
        invariant
            0 <= j <= distinct@.len(),
            table@ == seq![canonical] + distinct@.take(j as int),
        decreases distinct@.len() - j,
    {
        table.push(distinct[j]);
        proof {
            assert(seq![canonical] + distinct@.take(j + 1) =~= (seq![canonical]
                + distinct@.take(j as int)).push(distinct@[j as int]));
        }
        j = j + 1;
    }
    proof {
        assert(table@ =~= seq![canonical] + distinct@);
    }
    let r = dedup_resolutions(&table);
    proof {
        let ghost_distinct = dedup_first(
            outputs@.map_values(|o: Output| o.resolution()),
        );
        assert(distinct@ == ghost_distinct);
        lemma_dedup_first_elements(seq![canonical] + distinct@);
        assert(r@.len() > 0) by {
            assert((seq![canonical] + distinct@)[0] == canonical);
            assert((seq![canonical] + distinct@).contains(canonical));
        }
        assert(r@[0] == canonical) by {
            lemma_dedup_first_keeps_head(seq![canonical] + distinct@);
        }
    }
    r
}

/// Deduplication keeps the first element of a non-empty sequence in place.
proof fn lemma_dedup_first_keeps_head(s: Seq<Resolution>)
    requires
        s.len() > 0,
    ensures
        dedup_first(s).len() > 0,
        dedup_first(s)[0] == s[0],
    decreases s.len(),
{
    if s.len() > 1 {
        lemma_dedup_first_keeps_head(s.drop_last());
        let rest = dedup_first(s.drop_last());
        assert(s.drop_last()[0] == s[0]);
        if !rest.contains(s.last()) {
            assert(rest.push(s.last())[0] == rest[0]);
        }
    } else {
        let rest = dedup_first(s.drop_last());
        assert(s.drop_last().len() == 0);
        assert(rest =~= Seq::<Resolution>::empty());
        assert(!rest.contains(s.last()));
        assert(dedup_first(s)[0] == s.last());
        assert(s.last() == s[0]);
    }
}

} // verus!
