//! The batch conversions: choosing a direction, mapping every record and
//! ordering the batch by edition.

use vstd::prelude::*;
use crate::mapper::{amare_of, amare_to_metadata, metadata_of, metadata_to_amare};
use crate::record::{Amare, AmareView, Metadata, MetadataView};

verus! {

/// The direction of a conversion.
#[derive(Clone, Copy, Debug, PartialEq, Eq, Structural)]
pub enum Mode {
    /// Metadata documents in, rows out.
    JsonToCsv,
    /// Rows in, metadata documents out.
    CsvToJson,
}

/// The flag value that selects rows as input.
pub const CSV_FLAG: &'static str = "CSV";

/// `CSV` selects rows as input; every other value selects documents.
pub fn mode_from_flag(flag: &str) -> (r: Mode)
    ensures
        r == (if flag@ == CSV_FLAG@ {
            Mode::CsvToJson
        } else {
            Mode::JsonToCsv
        }),
{
    if flag.to_owned() == CSV_FLAG.to_owned() {
        Mode::CsvToJson
    } else {
        Mode::JsonToCsv
    }
}

/// The models of a sequence of documents.
pub open spec fn metadata_views(v: Seq<Metadata>) -> Seq<MetadataView> {
    v.map_values(|m: Metadata| m@)
}

/// The models of a sequence of rows.
pub open spec fn amare_views(v: Seq<Amare>) -> Seq<AmareView> {
    v.map_values(|a: Amare| a@)
}

/// Editions never decrease along `s`.
pub open spec fn sorted_by_edition(s: Seq<MetadataView>) -> bool {
    forall|i: int, j: int| 0 <= i < j < s.len() ==> s[i].edition <= s[j].edition
}

/// Holds of the documents whose edition is `e`.
pub open spec fn has_edition(e: u32) -> spec_fn(MetadataView) -> bool {
    |m: MetadataView| m.edition == e
}

/// `output` is `input` ordered by edition, with the documents of each edition
/// in the order in which they came.
pub open spec fn stably_sorted(input: Seq<MetadataView>, output: Seq<MetadataView>) -> bool {
    &&& sorted_by_edition(output)
    &&& forall|e: u32| #[trigger] output.filter(has_edition(e)) == input.filter(has_edition(e))
}

/// Putting `x` at `p`, after every document of lower edition and before every
/// other one, adds it at the front of its edition group.
proof fn lemma_insert_front_of_group(s: Seq<MetadataView>, p: int, x: MetadataView, e: u32)
    requires
        0 <= p <= s.len(),
        forall|k: int| 0 <= k < p ==> #[trigger] s[k].edition < x.edition,
    ensures
        s.insert(p, x).filter(has_edition(e)) == (seq![x] + s).filter(has_edition(e)),
{
    let f = has_edition(e);
    let front = s.subrange(0, p);
    let back = s.subrange(p, s.len() as int);
    assert(s.insert(p, x) =~= front + (seq![x] + back));
    assert(s =~= front + back);
    Seq::filter_distributes_over_add(front, seq![x] + back, f);
    Seq::filter_distributes_over_add(front, back, f);
    back.lemma_filter_prepend(x, f);
    s.lemma_filter_prepend(x, f);
    if e == x.edition {
        assert forall|k: int| 0 <= k < front.len() implies !f(#[trigger] front[k]) by {
            assert(front[k] == s[k]);
        }
        front.lemma_all_neg_filter_empty(f);
        assert(front.filter(f) =~= Seq::<MetadataView>::empty());
        assert(s.filter(f) =~= back.filter(f));
    } else {
        assert((seq![x] + back).filter(f) =~= back.filter(f));
    }
}

/// The last document of a nonempty ordered sequence has its greatest edition,
/// so no document carries a greater one.
proof fn lemma_no_greater_edition(s: Seq<MetadataView>, e: u32)
    requires
        sorted_by_edition(s),
        s.len() > 0,
        s.last().edition < e,
    ensures
        s.filter(has_edition(e)).len() == 0,
{
    let f = has_edition(e);
    assert forall|k: int| 0 <= k < s.len() implies !f(#[trigger] s[k]) by {
        if k < s.len() - 1 {
            assert(s[k].edition <= s[s.len() - 1].edition);
        }
    }
    assert(s.all(|m: MetadataView| !f(m)));
    s.lemma_all_neg_filter_empty(f);
}

/// Ordered sequences with the same edition groups are equal.
proof fn lemma_same_groups_equal(a: Seq<MetadataView>, b: Seq<MetadataView>)
    requires
        sorted_by_edition(a),
        sorted_by_edition(b),
        forall|e: u32| #[trigger] a.filter(has_edition(e)) == b.filter(has_edition(e)),
    ensures
        a == b,
    decreases a.len() + b.len(),
{
    if a.len() == 0 || b.len() == 0 {
        reveal(Seq::filter);
        if a.len() > 0 {
            a.lemma_filter_contains(has_edition(a.last().edition), a.len() - 1);
            assert(b.filter(has_edition(a.last().edition)).len() == 0);
        } else if b.len() > 0 {
            b.lemma_filter_contains(has_edition(b.last().edition), b.len() - 1);
            assert(a.filter(has_edition(b.last().edition)).len() == 0);
        }
        assert(a =~= b);
    } else {
        let x = a.last();
        let y = b.last();
        a.lemma_filter_contains(has_edition(x.edition), a.len() - 1);
        b.lemma_filter_contains(has_edition(y.edition), b.len() - 1);
        if y.edition < x.edition {
            lemma_no_greater_edition(b, x.edition);
            assert(a.filter(has_edition(x.edition)) == b.filter(has_edition(x.edition)));
        }
        if x.edition < y.edition {
            lemma_no_greater_edition(a, y.edition);
            assert(a.filter(has_edition(y.edition)) == b.filter(has_edition(y.edition)));
        }
        let ra = a.drop_last();
        let rb = b.drop_last();
        assert(a =~= ra.push(x));
        assert(b =~= rb.push(y));
        ra.lemma_filter_push(x, has_edition(x.edition));
        rb.lemma_filter_push(y, has_edition(x.edition));
        assert(a.filter(has_edition(x.edition)) == b.filter(has_edition(x.edition)));
        assert(ra.filter(has_edition(x.edition)).push(x) == rb.filter(has_edition(x.edition)).push(
            y,
        ));
        assert(x == ra.filter(has_edition(x.edition)).push(x).last());
        assert(ra.filter(has_edition(x.edition)) =~= ra.filter(has_edition(x.edition)).push(
            x,
        ).drop_last());
        assert(rb.filter(has_edition(x.edition)) =~= rb.filter(has_edition(x.edition)).push(
            y,
        ).drop_last());
        assert forall|e: u32| #[trigger] ra.filter(has_edition(e)) == rb.filter(has_edition(e)) by {
            ra.lemma_filter_push(x, has_edition(e));
            rb.lemma_filter_push(y, has_edition(e));
            assert(a.filter(has_edition(e)) == b.filter(has_edition(e)));
        }
        lemma_same_groups_equal(ra, rb);
    }
}

/// A batch has exactly one stable ordering by edition.
pub proof fn lemma_stable_order_unique(
    input: Seq<MetadataView>,
    a: Seq<MetadataView>,
    b: Seq<MetadataView>,
)
    requires
        stably_sorted(input, a),
        stably_sorted(input, b),
    ensures
        a == b,
{
    assert forall|e: u32| #[trigger] a.filter(has_edition(e)) == b.filter(has_edition(e)) by {
        assert(a.filter(has_edition(e)) == input.filter(has_edition(e)));
        assert(b.filter(has_edition(e)) == input.filter(has_edition(e)));
    }
    lemma_same_groups_equal(a, b);
}

/// Orders documents by edition, keeping the input order among documents of
/// the same edition.
pub fn sort_by_edition(v: Vec<Metadata>) -> (r: Vec<Metadata>)
    ensures
        stably_sorted(metadata_views(v@), metadata_views(r@)),
{
    let ghost iv = metadata_views(v@);
    let mut rest = v;
    let mut out: Vec<Metadata> = Vec::new();
    assert(metadata_views(out@) =~= Seq::<MetadataView>::empty());
    while rest.len() > 0
        invariant
            rest.len() <= iv.len(),
            metadata_views(rest@) == iv.subrange(0, rest.len() as int),
            sorted_by_edition(metadata_views(out@)),
            forall|e: u32|
                #[trigger] metadata_views(out@).filter(has_edition(e)) == iv.subrange(
                    rest.len() as int,
                    iv.len() as int,
                ).filter(has_edition(e)),
        decreases rest.len(),
    {
        let ghost before = metadata_views(rest@);
        let ghost ov = metadata_views(out@);
        let x = rest.pop().unwrap();
        let ghost n = rest.len() as int;
        assert(metadata_views(rest@) =~= iv.subrange(0, n));
        assert(x@ == iv[n]) by {
            assert(x@ == before[n]);
        }
        let mut p: usize = 0;
        while p < out.len() && out[p].edition < x.edition
            invariant
                0 <= p <= out.len(),
                ov == metadata_views(out@),
                forall|k: int| 0 <= k < p ==> #[trigger] ov[k].edition < x.edition,
            decreases out.len() - p,
        {
            p += 1;
        }
        proof {
            let ins = ov.insert(p as int, x@);
            assert forall|k: int| p <= k < ov.len() implies x.edition <= #[trigger] ov[k].edition by {
                assert(ov[p as int].edition <= ov[k].edition);
            }
            assert forall|i: int, j: int| 0 <= i < j < ins.len() implies ins[i].edition
                <= ins[j].edition by {
                if j < p {
                } else if j == p {
                    assert(ins[i] == ov[i]);
                } else if i < p {
                    assert(ins[i] == ov[i]);
                    assert(ins[j] == ov[j - 1]);
                } else if i == p {
                    assert(ins[j] == ov[j - 1]);
                } else {
                    assert(ins[i] == ov[i - 1]);
                    assert(ins[j] == ov[j - 1]);
                }
            }
            assert(iv.subrange(n, iv.len() as int) =~= seq![x@] + iv.subrange(n + 1, iv.len() as int));
            assert forall|e: u32| #[trigger] ov.insert(p as int, x@).filter(has_edition(e))
                == iv.subrange(n, iv.len() as int).filter(has_edition(e)) by {
                lemma_insert_front_of_group(ov, p as int, x@, e);
            }
        }
        out.insert(p, x);
        assert(metadata_views(out@) =~= ov.insert(p as int, x@));
    }
    assert(iv.subrange(0, iv.len() as int) =~= iv);
    out
}

/// The rows for a batch of documents: the documents ordered stably by
/// edition, each mapped to its row.
pub fn to_rows(records: Vec<Metadata>) -> (r: Vec<Amare>)
    ensures
        exists|sorted: Seq<MetadataView>|
            stably_sorted(metadata_views(records@), sorted) && amare_views(r@) == sorted.map_values(
                |m: MetadataView| amare_of(m),
            ),
        forall|i: int, j: int| 0 <= i < j < r@.len() ==> r@[i].edition <= r@[j].edition,
{
    let sorted = sort_by_edition(records);
    let mut rows: Vec<Amare> = Vec::new();
    let mut i: usize = 0;
    while i < sorted.len()
        invariant
            0 <= i <= sorted.len(),
            rows.len() == i,
            amare_views(rows@) == metadata_views(sorted@).subrange(0, i as int).map_values(
                |m: MetadataView| amare_of(m),
            ),
        decreases sorted.len() - i,
    {
        let ghost prev = rows@;
        let row = metadata_to_amare(&sorted[i]);
        rows.push(row);
        assert(rows@ == prev.push(row));
        assert(metadata_views(sorted@)[i as int] == sorted@[i as int]@);
        assert forall|k: int| 0 <= k < i implies #[trigger] amare_views(rows@)[k] == amare_views(
            prev,
        )[k] by {
            assert(rows@[k] == prev[k]);
        }
        assert(amare_views(rows@) =~= metadata_views(sorted@).subrange(0, i + 1).map_values(
            |m: MetadataView| amare_of(m),
        ));
        i += 1;
    }
    assert(metadata_views(sorted@).subrange(0, i as int) =~= metadata_views(sorted@));
    assert forall|i: int, j: int| 0 <= i < j < rows@.len() implies rows@[i].edition
        <= rows@[j].edition by {
        assert(amare_views(rows@)[i] == rows@[i]@);
        assert(amare_views(rows@)[j] == rows@[j]@);
        assert(metadata_views(sorted@)[i].edition <= metadata_views(sorted@)[j].edition);
    }
    rows
}

/// The documents for a batch of rows: each row mapped to its document, then
/// ordered stably by edition.
pub fn to_documents(rows: Vec<Amare>) -> (r: Vec<Metadata>)
    ensures
        stably_sorted(amare_views(rows@).map_values(|c: AmareView| metadata_of(c)), metadata_views(r@)),
{
    let mut docs: Vec<Metadata> = Vec::new();
    let mut i: usize = 0;
    while i < rows.len()
        invariant
            0 <= i <= rows.len(),
            docs.len() == i,
            metadata_views(docs@) == amare_views(rows@).subrange(0, i as int).map_values(
                |c: AmareView| metadata_of(c),
            ),
        decreases rows.len() - i,
    {
        let ghost prev = docs@;
        let doc = amare_to_metadata(&rows[i]);
        docs.push(doc);
        assert(docs@ == prev.push(doc));
        assert(amare_views(rows@)[i as int] == rows@[i as int]@);
        assert forall|k: int| 0 <= k < i implies #[trigger] metadata_views(docs@)[k]
            == metadata_views(prev)[k] by {
            assert(docs@[k] == prev[k]);
        }
        assert(metadata_views(docs@) =~= amare_views(rows@).subrange(0, i + 1).map_values(
            |c: AmareView| metadata_of(c),
        ));
        i += 1;
    }
    assert(amare_views(rows@).subrange(0, i as int) =~= amare_views(rows@));
    sort_by_edition(docs)
}

} // verus!
