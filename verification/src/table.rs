//! The address-ordered symbol table: an associative container keyed by each
//! record's relative virtual address, with unique keys, ascending-address
//! iteration, and the nearest-preceding-record containment query.

use vstd::prelude::*;

use crate::symbol::{ElfSymbol, SymbolView};

verus! {

/// Record addresses are strictly ascending (keys unique and sorted).
pub open spec fn sorted_by_rva(s: Seq<SymbolView>) -> bool {
    forall|i: int, j: int| 0 <= i < j < s.len() ==> s[i].rva < s[j].rva
}

/// Some record of `s` starts at address `r`.
pub open spec fn contains_rva(s: Seq<SymbolView>, r: u32) -> bool {
    exists|i: int| 0 <= i < s.len() && (#[trigger] s[i]).rva == r
}

/// Each record's half-open span `[rva, rva + len)` ends at or before the
/// next record's start.
pub open spec fn non_overlapping(s: Seq<SymbolView>) -> bool {
    forall|i: int| 0 <= i < s.len() - 1 ==> (#[trigger] s[i]).rva + s[i].len <= s[i + 1].rva
}

/// The containment test over records in ascending address order: locate the
/// record with the greatest start address strictly below `a`; if none
/// exists the answer is false, otherwise it is true iff `a` lies strictly
/// below that record's end `rva + len` (end-exclusive).
pub open spec fn spec_is_inside(s: Seq<SymbolView>, a: u32) -> bool
    decreases s.len(),
{
    if s.len() == 0 {
        false
    } else if s.last().rva < a {
        a < s.last().rva + s.last().len
    } else {
        spec_is_inside(s.drop_last(), a)
    }
}

/// Insertion keyed by `v.rva` that never overwrites: if a record already
/// starts at `v.rva` the table is unchanged (the existing record is
/// authoritative); otherwise `v` enters at its sorted position.
pub open spec fn spec_insert(s: Seq<SymbolView>, v: SymbolView) -> Seq<SymbolView>
    decreases s.len(),
{
    if s.len() == 0 {
        seq![v]
    } else if v.rva < s[0].rva {
        seq![v] + s
    } else if v.rva == s[0].rva {
        s
    } else {
        seq![s[0]] + spec_insert(s.drop_first(), v)
    }
}

/// The range-containment query of an address-keyed symbol container.
pub trait ContainsSymbol {
    /// The container's records in ascending address order.
    spec fn sym_seq(&self) -> Seq<SymbolView>;

    /// The container's invariant.
    spec fn inv(&self) -> bool;

    /// True iff `rva` lies strictly below the end of the record with the
    /// greatest start address strictly below `rva`.
    fn is_inside_symbol(&self, rva: u32) -> (r: bool)
        requires
            self.inv(),
        ensures
            r == spec_is_inside(self.sym_seq(), rva),
    ;
}

/// The ordered mapping from relative virtual address to symbol record.
#[derive(Debug)]
pub struct ElfSymbols {
    entries: Vec<ElfSymbol>,
}

impl View for ElfSymbols {
    type V = Seq<SymbolView>;

    closed spec fn view(&self) -> Seq<SymbolView> {
        self.entries@.map_values(|e: ElfSymbol| e@)
    }
}

impl ElfSymbols {
    /// The table invariant: records sorted by strictly ascending address,
    /// each stored under its own `rva` as the key.
    pub open spec fn wf(&self) -> bool {
        sorted_by_rva(self@)
    }

    /// An empty table.
    pub fn new() -> (r: ElfSymbols)
        ensures
            r@ == Seq::<SymbolView>::empty(),
            r.wf(),
    {
        let r = ElfSymbols { entries: Vec::new() };
        proof {
            assert(r@ =~= Seq::<SymbolView>::empty());
        }
        r
    }

    /// The number of records.
    pub fn len(&self) -> (n: usize)
        ensures
            n == self@.len(),
    {
        self.entries.len()
    }

    /// The record at position `i` in ascending address order.
    pub fn record_at(&self, i: usize) -> (r: &ElfSymbol)
        requires
            i < self@.len(),
        ensures
            r@ == self@[i as int],
    {
        &self.entries[i]
    }

    /// The record stored at address `rva`, if any.
    pub fn get(&self, rva: u32) -> (r: Option<&ElfSymbol>)
        ensures
            match r {
                Option::Some(e) => e@.rva == rva && (exists|i: int|
                    0 <= i < self@.len() && #[trigger] self@[i] == e@),
                Option::None => !contains_rva(self@, rva),
            },
    {
        let n = self.entries.len();
        let mut i: usize = 0;
        while i < n
            invariant
                i <= n,
                n == self@.len(),
                forall|j: int| 0 <= j < i ==> (#[trigger] self@[j]).rva != rva,
            decreases n - i,
        {
            if self.entries[i].rva == rva {
                proof {
                    assert(self@[i as int] == self.entries@[i as int]@);
                }
                return Some(&self.entries[i]);
            }
            proof {
                assert(self@[i as int] == self.entries@[i as int]@);
            }
            i += 1;
        }
        None
    }

    /// Inserts `sym` under the key `sym.rva`, unless a record already starts
    /// there: an existing record is authoritative and is never overwritten.
    pub fn insert(&mut self, sym: ElfSymbol)
        requires
            old(self).wf(),
        ensures
            final(self).wf(),
            final(self)@ == spec_insert(old(self)@, sym@),
    {
        let ghost s0 = self@;
        let n = self.entries.len();
        let mut idx: usize = 0;
        while idx < n && self.entries[idx].rva < sym.rva
            invariant
                idx <= n,
                n == self@.len(),
                self == old(self),
                forall|j: int| 0 <= j < idx ==> (#[trigger] self@[j]).rva < sym.rva,
            decreases n - idx,
        {
            idx += 1;
        }
        if idx < n && self.entries[idx].rva == sym.rva {
            proof {
                lemma_spec_insert_position(s0, sym@, idx as int);
            }
        } else {
            proof {
                lemma_spec_insert_position(s0, sym@, idx as int);
            }
            self.entries.insert(idx, sym);
            proof {
                assert(self@ =~= s0.subrange(0, idx as int) + seq![sym@] + s0.subrange(
                    idx as int,
                    s0.len() as int,
                ));
                assert forall|i: int, j: int| 0 <= i < j < self@.len() implies self@[i].rva
                    < self@[j].rva by {
                    let k = idx as int;
                    if i < k && j > k {
                        assert(s0[i].rva < sym@.rva);
                        assert(self@[j] == s0[j - 1]);
                        if j - 1 > k {
                            assert(s0[k].rva < s0[j - 1].rva);
                        }
                    } else if j == k {
                        assert(self@[i] == s0[i]);
                    } else if i == k {
                        assert(self@[j] == s0[j - 1]);
                        if j - 1 > k {
                            assert(s0[k].rva < s0[j - 1].rva);
                        }
                    }
                }
            }
        }
    }
}

impl ContainsSymbol for ElfSymbols {
    open spec fn sym_seq(&self) -> Seq<SymbolView> {
        self@
    }

    open spec fn inv(&self) -> bool {
        self.wf()
    }

    fn is_inside_symbol(&self, rva: u32) -> (r: bool) {
        let n = self.entries.len();
        let mut i: usize = n;
        proof {
            assert(self@.take(n as int) =~= self@);
        }
        while i > 0
            invariant
                i <= n,
                n == self@.len(),
                spec_is_inside(self@, rva) == spec_is_inside(self@.take(i as int), rva),
                forall|j: int| i <= j < n ==> rva <= (#[trigger] self@[j]).rva,
            decreases i,
        {
            proof {
                assert(self@.take(i as int).last() == self@[i - 1]);
                assert(self@.take(i as int).drop_last() =~= self@.take(i - 1));
            }
            if self.entries[i - 1].rva < rva {
                return (rva as u64) < (self.entries[i - 1].rva as u64 + self.entries[i
                    - 1].len as u64);
            }
            i -= 1;
        }
        proof {
            assert(self@.take(0) =~= Seq::<SymbolView>::empty());
        }
        false
    }
}

/// Where the leading `idx` records all start below `v.rva` and the record at
/// `idx`, if any, does not, insertion lands exactly there: it leaves the
/// table unchanged when that record starts at `v.rva`, and splices `v` in at
/// position `idx` otherwise.
proof fn lemma_spec_insert_position(s: Seq<SymbolView>, v: SymbolView, idx: int)
    requires
        0 <= idx <= s.len(),
        forall|j: int| 0 <= j < idx ==> (#[trigger] s[j]).rva < v.rva,
        idx < s.len() ==> s[idx].rva >= v.rva,
    ensures
        spec_insert(s, v) == if idx < s.len() && s[idx].rva == v.rva {
            s
        } else {
            s.subrange(0, idx) + seq![v] + s.subrange(idx, s.len() as int)
        },
    decreases idx,
{
    if idx == 0 {
        if s.len() == 0 {
            assert(spec_insert(s, v) =~= s.subrange(0, 0) + seq![v] + s.subrange(
                0,
                s.len() as int,
            ));
        } else if v.rva < s[0].rva {
            assert(spec_insert(s, v) =~= s.subrange(0, 0) + seq![v] + s.subrange(
                0,
                s.len() as int,
            ));
        } else {
            assert(v.rva == s[0].rva);
        }
    } else {
        assert(s[0].rva < v.rva);
        lemma_spec_insert_position(s.drop_first(), v, idx - 1);
        let t = s.drop_first();
        if idx < s.len() && s[idx].rva == v.rva {
            assert(t[idx - 1].rva == v.rva);
            assert(spec_insert(s, v) =~= seq![s[0]] + t);
            assert(seq![s[0]] + t =~= s);
        } else {
            assert(spec_insert(s, v) == seq![s[0]] + spec_insert(t, v));
            assert(spec_insert(t, v) == t.subrange(0, idx - 1) + seq![v] + t.subrange(
                idx - 1,
                t.len() as int,
            ));
            assert(seq![s[0]] + (t.subrange(0, idx - 1) + seq![v] + t.subrange(
                idx - 1,
                t.len() as int,
            )) =~= s.subrange(0, idx) + seq![v] + s.subrange(idx, s.len() as int));
        }
    }
}

/// Insertion at an already-occupied address leaves a sorted table unchanged:
/// the existing record is authoritative.
pub proof fn lemma_insert_existing(s: Seq<SymbolView>, v: SymbolView)
    requires
        sorted_by_rva(s),
        contains_rva(s, v.rva),
    ensures
        spec_insert(s, v) == s,
    decreases s.len(),
{
    let w = choose|i: int| 0 <= i < s.len() && (#[trigger] s[i]).rva == v.rva;
    if v.rva < s[0].rva {
        assert(false);
    } else if v.rva == s[0].rva {
    } else {
        let t = s.drop_first();
        assert forall|i: int, j: int| 0 <= i < j < t.len() implies t[i].rva < t[j].rva by {
            assert(t[i] == s[i + 1]);
            assert(t[j] == s[j + 1]);
        }
        assert(w >= 1);
        assert(t[w - 1] == s[w]);
        assert(contains_rva(t, v.rva));
        lemma_insert_existing(t, v);
        assert(seq![s[0]] + t =~= s);
    }
}

/// The addresses present after an insertion are the old ones and the new
/// record's own.
pub proof fn lemma_insert_contains(s: Seq<SymbolView>, v: SymbolView, r: u32)
    ensures
        contains_rva(spec_insert(s, v), r) <==> (contains_rva(s, r) || r == v.rva),
    decreases s.len(),
{
    let out = spec_insert(s, v);
    if s.len() == 0 {
        assert(out[0] == v);
        if contains_rva(out, r) {
            let i = choose|i: int| 0 <= i < out.len() && (#[trigger] out[i]).rva == r;
            assert(i == 0);
        }
    } else if v.rva < s[0].rva {
        assert(out == seq![v] + s);
        if contains_rva(s, r) {
            let i = choose|i: int| 0 <= i < s.len() && (#[trigger] s[i]).rva == r;
            assert(out[i + 1] == s[i]);
        }
        if r == v.rva {
            assert(out[0] == v);
        }
        if contains_rva(out, r) {
            let i = choose|i: int| 0 <= i < out.len() && (#[trigger] out[i]).rva == r;
            if i > 0 {
                assert(out[i] == s[i - 1]);
            }
        }
    } else if v.rva == s[0].rva {
        assert(out == s);
        if r == v.rva {
            assert(s[0].rva == r);
        }
    } else {
        let t = s.drop_first();
        lemma_insert_contains(t, v, r);
        let rec = spec_insert(t, v);
        assert(out == seq![s[0]] + rec);
        if contains_rva(out, r) {
            let i = choose|i: int| 0 <= i < out.len() && (#[trigger] out[i]).rva == r;
            if i == 0 {
                assert(s[0].rva == r);
            } else {
                assert(out[i] == rec[i - 1]);
                assert(contains_rva(rec, r));
                if contains_rva(t, r) {
                    let j = choose|j: int| 0 <= j < t.len() && (#[trigger] t[j]).rva == r;
                    assert(s[j + 1] == t[j]);
                }
            }
        }
        if contains_rva(s, r) {
            let i = choose|i: int| 0 <= i < s.len() && (#[trigger] s[i]).rva == r;
            if i == 0 {
                assert(out[0].rva == r);
            } else {
                assert(t[i - 1] == s[i]);
                assert(contains_rva(rec, r));
                let j = choose|j: int| 0 <= j < rec.len() && (#[trigger] rec[j]).rva == r;
                assert(out[j + 1] == rec[j]);
            }
        }
        if r == v.rva {
            assert(contains_rva(rec, r));
            let j = choose|j: int| 0 <= j < rec.len() && (#[trigger] rec[j]).rva == r;
            assert(out[j + 1] == rec[j]);
        }
    }
}

/// Insertion keeps every address above a common lower bound.
proof fn lemma_insert_lower_bound(s: Seq<SymbolView>, v: SymbolView, b: u32)
    requires
        forall|i: int| 0 <= i < s.len() ==> b < (#[trigger] s[i]).rva,
        b < v.rva,
    ensures
        forall|i: int|
            0 <= i < spec_insert(s, v).len() ==> b < (#[trigger] spec_insert(s, v)[i]).rva,
    decreases s.len(),
{
    let out = spec_insert(s, v);
    if s.len() == 0 {
    } else if v.rva < s[0].rva {
        assert forall|i: int| 0 <= i < out.len() implies b < out[i].rva by {
            if i > 0 {
                assert(out[i] == s[i - 1]);
            }
        }
    } else if v.rva == s[0].rva {
    } else {
        let t = s.drop_first();
        assert forall|i: int| 0 <= i < t.len() implies b < (#[trigger] t[i]).rva by {
            assert(t[i] == s[i + 1]);
        }
        lemma_insert_lower_bound(t, v, b);
        let rec = spec_insert(t, v);
        assert forall|i: int| 0 <= i < out.len() implies b < out[i].rva by {
            if i > 0 {
                assert(out[i] == rec[i - 1]);
            }
        }
    }
}

/// Insertion preserves the table invariant: the result is again strictly
/// sorted by address.
pub proof fn lemma_insert_sorted(s: Seq<SymbolView>, v: SymbolView)
    requires
        sorted_by_rva(s),
    ensures
        sorted_by_rva(spec_insert(s, v)),
    decreases s.len(),
{
    let out = spec_insert(s, v);
    if s.len() == 0 {
    } else if v.rva < s[0].rva {
        assert forall|i: int, j: int| 0 <= i < j < out.len() implies out[i].rva < out[j].rva by {
            assert(out[j] == s[j - 1]);
            if i > 0 {
                assert(out[i] == s[i - 1]);
            }
        }
    } else if v.rva == s[0].rva {
    } else {
        let t = s.drop_first();
        assert forall|i: int, j: int| 0 <= i < j < t.len() implies t[i].rva < t[j].rva by {
            assert(t[i] == s[i + 1]);
            assert(t[j] == s[j + 1]);
        }
        lemma_insert_sorted(t, v);
        assert forall|i: int| 0 <= i < t.len() implies s[0].rva < (#[trigger] t[i]).rva by {
            assert(t[i] == s[i + 1]);
        }
        lemma_insert_lower_bound(t, v, s[0].rva);
        let rec = spec_insert(t, v);
        assert forall|i: int, j: int| 0 <= i < j < out.len() implies out[i].rva < out[j].rva by {
            assert(out[j] == rec[j - 1]);
            if i > 0 {
                assert(out[i] == rec[i - 1]);
            }
        }
    }
}

/// For a sorted table of non-overlapping records, the containment query is
/// true exactly when the address lies in some record's half-open span
/// `[rva, rva + len)`. A record's own start address is deliberately excluded
/// from the query's preceding-record search, so `a` is required not to be
/// any record's start.
pub proof fn lemma_is_inside_iff_in_span(s: Seq<SymbolView>, a: u32)
    requires
        sorted_by_rva(s),
        non_overlapping(s),
        forall|i: int| 0 <= i < s.len() ==> (#[trigger] s[i]).rva != a,
    ensures
        spec_is_inside(s, a) <==> exists|i: int|
            0 <= i < s.len() && (#[trigger] s[i]).rva <= a && a < s[i].rva + s[i].len,
    decreases s.len(),
{
    if s.len() == 0 {
    } else {
        let last = s[s.len() - 1];
        if last.rva < a {
            if a < last.rva + last.len {
                assert(s[s.len() - 1].rva <= a && a < s[s.len() - 1].rva + s[s.len() - 1].len);
            } else {
                assert forall|i: int|
                    0 <= i < s.len() implies !(s[i].rva <= a && a < s[i].rva + s[i].len) by {
                    if i < s.len() - 1 {
                        lemma_span_chain(s, i, s.len() - 1);
                        assert(s[i].rva + s[i].len <= last.rva);
                    }
                }
            }
        } else {
            assert(last.rva > a);
            let t = s.drop_last();
            assert forall|i: int, j: int| 0 <= i < j < t.len() implies t[i].rva < t[j].rva by {
                assert(t[i] == s[i]);
                assert(t[j] == s[j]);
            }
            assert forall|i: int|
                0 <= i < t.len() - 1 implies t[i].rva + t[i].len <= t[i + 1].rva by {
                assert(t[i] == s[i]);
                assert(t[i + 1] == s[i + 1]);
            }
            assert forall|i: int| 0 <= i < t.len() implies t[i].rva != a by {
                assert(t[i] == s[i]);
            }
            lemma_is_inside_iff_in_span(t, a);
            if spec_is_inside(s, a) {
                let i = choose|i: int|
                    0 <= i < t.len() && (#[trigger] t[i]).rva <= a && a < t[i].rva + t[i].len;
                assert(s[i] == t[i]);
            } else {
                if exists|i: int|
                    0 <= i < s.len() && (#[trigger] s[i]).rva <= a && a < s[i].rva + s[i].len {
                    let i = choose|i: int|
                        0 <= i < s.len() && (#[trigger] s[i]).rva <= a && a < s[i].rva
                            + s[i].len;
                    assert(i < s.len() - 1);
                    assert(t[i] == s[i]);
                }
            }
        }
    }
}

/// The spans of a sorted, non-overlapping table never reach past a later
/// record's start: the record at `i` ends at or before the record at `j`
/// begins.
proof fn lemma_span_chain(s: Seq<SymbolView>, i: int, j: int)
    requires
        sorted_by_rva(s),
        non_overlapping(s),
        0 <= i < j < s.len(),
    ensures
        s[i].rva + s[i].len <= s[j].rva,
    decreases j - i,
{
    if j == i + 1 {
    } else {
        lemma_span_chain(s, i, j - 1);
        assert(s[j - 1].rva + s[j - 1].len <= s[j].rva);
    }
}

} // verus!
