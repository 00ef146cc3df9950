//! The two passes over a motif stream.
//!
//! The first pass takes the parsed lines one by one. It puts the key of each
//! into a sketch, counts the lines, and keeps every node pair, with the
//! connectivity flag of the line that first showed it, and every orbit pair,
//! each once and in the order in which they were first seen.
//!
//! The second pass asks the sketch for every node pair with every orbit pair
//! that was seen, whether or not the two were seen together. An orbit pair is
//! reported for a node pair where the sketch says more of the two than the
//! noise floor, with what the sketch says less the noise floor. A node pair
//! for which no orbit pair is reported is left out.
//!
//! The noise floor is the error rate times the number of lines, rounded down.
//! The caller works it out and hands it to the second pass.

use crate::cms::{CountMinSketch, SketchError, SketchView, Count};
use crate::parser::{key_of, CMSInfo, CMSView};
use crate::text::{decimal_text, push_decimal};
use vstd::hash_set::StringHashSet;
use vstd::multiset::Multiset;
use vstd::prelude::*;
use vstd::string::StringExecFns;

verus! {

/// What is reported for one node pair.
#[derive(Debug, PartialEq, Eq)]
pub struct ReportEntry {
    /// The node pair, `u:v`.
    pub uv: String,
    /// The connectivity flag of the line that first showed the node pair.
    pub c: u8,
    /// The orbit pairs that rose above the noise floor, each with what the
    /// sketch said of it less the noise floor, in the order in which the orbit
    /// pairs were first seen.
    pub orbits: Vec<(String, Count)>,
}

/// A `ReportEntry` as a mathematical value.
pub struct ReportView {
    pub uv: Seq<char>,
    pub c: u8,
    pub orbits: Seq<(Seq<char>, Count)>,
}

impl View for ReportEntry {
    type V = ReportView;

    open spec fn view(&self) -> ReportView {
        ReportView { uv: self.uv@, c: self.c, orbits: hits_view(self.orbits@) }
    }
}

/// Orbit pairs with their estimates as mathematical values.
pub open spec fn hits_view(hits: Seq<(String, Count)>) -> Seq<(Seq<char>, Count)> {
    hits.map_values(|h: (String, Count)| (h.0@, h.1))
}

/// Report entries as mathematical values.
pub open spec fn entries_view(entries: Seq<ReportEntry>) -> Seq<ReportView> {
    entries.map_values(|e: ReportEntry| e@)
}

impl ReportView {
    /// The text of the first `n` orbit pairs of a line: for each a tab, the
    /// label, a colon, the orbit pair, a blank and the estimate.
    pub open spec fn groups(self, label: nat, n: nat) -> Seq<char>
        decreases n,
    {
        if n == 0 {
            Seq::empty()
        } else {
            self.groups(label, (n - 1) as nat) + seq!['\t'] + decimal_text(label) + seq![':']
                + self.orbits[n - 1].0 + seq![' '] + decimal_text(self.orbits[n - 1].1 as nat)
        }
    }

    /// The line that reports the entry: the node pair, a blank, the
    /// connectivity flag, the orbit pairs, and a line feed.
    pub open spec fn line(self, label: nat) -> Seq<char> {
        self.uv + seq![' '] + decimal_text(self.c as nat) + self.groups(
            label,
            self.orbits.len(),
        ) + seq!['\n']
    }
}

impl ReportEntry {
    /// The line that reports the entry, under the label `label`, which is
    /// written out and plays no other part.
    pub fn line(&self, label: u64) -> (r: String)
        ensures
            r@ == self@.line(label as nat),
    {
        let mut out = self.uv.clone();
        out.push(' ');
        push_decimal(&mut out, self.c as u64);
        let ghost head = out@;
        let n = self.orbits.len();
        let mut i: usize = 0;
        while i < n
            invariant
                i <= n,
                n == self.orbits@.len(),
                out@ == head + self@.groups(label as nat, i as nat),
            decreases n - i,
        {
            out.push('\t');
            push_decimal(&mut out, label);
            out.push(':');
            out.append(self.orbits[i].0.as_str());
            out.push(' ');
            push_decimal(&mut out, self.orbits[i].1 as u64);
            proof {
                let g = self@.groups(label as nat, i as nat);
                let h = self@.orbits[i as int];
                assert(out@ =~= head + (g + seq!['\t'] + decimal_text(label as nat) + seq![':']
                    + h.0 + seq![' '] + decimal_text(h.1 as nat)));
            }
            i += 1;
        }
        out.push('\n');
        out
    }
}

/// The two passes as a mathematical value: the sketch, the number of lines
/// taken, and the node pairs and orbit pairs in the order in which they were
/// first seen.
pub struct PipelineView {
    pub sketch: SketchView,
    pub count: nat,
    pub nodes: Seq<(Seq<char>, u8)>,
    pub orbits: Seq<Seq<char>>,
}

impl PipelineView {
    /// Whether a node pair was seen.
    pub open spec fn knows_node(self, uv: Seq<char>) -> bool {
        among_nodes(self.nodes, uv)
    }

    /// Whether an orbit pair was seen.
    pub open spec fn knows_orbit(self, op: Seq<char>) -> bool {
        self.orbits.contains(op)
    }

    /// The state after one more line.
    pub open spec fn observe(self, info: CMSView) -> PipelineView {
        PipelineView {
            sketch: self.sketch.put(key_of(info.uv, info.op)),
            count: self.count + 1,
            nodes: if self.knows_node(info.uv) {
                self.nodes
            } else {
                self.nodes.push((info.uv, info.c))
            },
            orbits: if self.knows_orbit(info.op) {
                self.orbits
            } else {
                self.orbits.push(info.op)
            },
        }
    }

    /// What is reported of an orbit pair for a node pair: nothing where the
    /// sketch says no more than the noise floor, else what it says less the
    /// noise floor.
    pub open spec fn corrected(self, uv: Seq<char>, op: Seq<char>, range: nat) -> Option<Count> {
        let raw = self.sketch.estimate(key_of(uv, op));
        if raw > range {
            Some((raw - range) as Count)
        } else {
            None
        }
    }

    /// What is reported for a node pair of the first `n` orbit pairs.
    pub open spec fn hits(self, uv: Seq<char>, range: nat, n: nat) -> Seq<(Seq<char>, Count)>
        decreases n,
    {
        if n == 0 {
            Seq::empty()
        } else {
            let before = self.hits(uv, range, (n - 1) as nat);
            match self.corrected(uv, self.orbits[n - 1], range) {
                Some(estimate) => before.push((self.orbits[n - 1], estimate)),
                None => before,
            }
        }
    }

    /// What is reported for the first `n` node pairs.
    pub open spec fn entries(self, range: nat, n: nat) -> Seq<ReportView>
        decreases n,
    {
        if n == 0 {
            Seq::empty()
        } else {
            let before = self.entries(range, (n - 1) as nat);
            let node = self.nodes[n - 1];
            let hits = self.hits(node.0, range, self.orbits.len());
            if hits.len() > 0 {
                before.push(ReportView { uv: node.0, c: node.1, orbits: hits })
            } else {
                before
            }
        }
    }

    /// The report under the given noise floor.
    pub open spec fn report(self, range: nat) -> Seq<ReportView> {
        self.entries(range, self.nodes.len())
    }
}

/// Every orbit pair that is reported for a node pair was seen, and it comes
/// with what the sketch says of the two less the noise floor, which is more
/// than nothing.
pub proof fn lemma_hits_rise_above(v: PipelineView, uv: Seq<char>, range: nat, n: nat)
    requires
        n <= v.orbits.len(),
    ensures
        forall|k: int|
            0 <= k < v.hits(uv, range, n).len() ==> {
                let hit = #[trigger] v.hits(uv, range, n)[k];
                &&& v.knows_orbit(hit.0)
                &&& hit.1 > 0
                &&& hit.1 + range == v.sketch.estimate(key_of(uv, hit.0))
            },
    decreases n,
{
    if n > 0 {
        let before = v.hits(uv, range, (n - 1) as nat);
        lemma_hits_rise_above(v, uv, range, (n - 1) as nat);
        assert(v.orbits.contains(v.orbits[n - 1]));
        assert forall|k: int| 0 <= k < v.hits(uv, range, n).len() implies {
            let hit = #[trigger] v.hits(uv, range, n)[k];
            &&& v.knows_orbit(hit.0)
            &&& hit.1 > 0
            &&& hit.1 + range == v.sketch.estimate(key_of(uv, hit.0))
        } by {
            if k < before.len() {
                assert(v.hits(uv, range, n)[k] == before[k]);
            }
        }
    }
}

/// Every entry of a report is for a node pair that was seen, carries the
/// flag that is kept for it, and holds all that is reported for it, which is
/// at least one orbit pair.
pub proof fn lemma_entries_hold_hits(v: PipelineView, range: nat, n: nat)
    requires
        n <= v.nodes.len(),
    ensures
        forall|k: int|
            0 <= k < v.entries(range, n).len() ==> {
                let entry = #[trigger] v.entries(range, n)[k];
                &&& v.nodes.contains((entry.uv, entry.c))
                &&& entry.orbits == v.hits(entry.uv, range, v.orbits.len())
                &&& entry.orbits.len() > 0
            },
    decreases n,
{
    if n > 0 {
        let before = v.entries(range, (n - 1) as nat);
        lemma_entries_hold_hits(v, range, (n - 1) as nat);
        assert(v.nodes.contains(v.nodes[n - 1]));
        assert forall|k: int| 0 <= k < v.entries(range, n).len() implies {
            let entry = #[trigger] v.entries(range, n)[k];
            &&& v.nodes.contains((entry.uv, entry.c))
            &&& entry.orbits == v.hits(entry.uv, range, v.orbits.len())
            &&& entry.orbits.len() > 0
        } by {
            if k < before.len() {
                assert(v.entries(range, n)[k] == before[k]);
            }
        }
    }
}

/// The noise floor after `count` lines under the error rate `num / den`: the
/// error rate times the number of lines, rounded down.
pub open spec fn noise_floor_of(count: nat, num: u64, den: u64) -> int {
    (count * num) / (den as int)
}

/// Whether `uv` is the node pair of one of `nodes`.
pub open spec fn among_nodes(nodes: Seq<(Seq<char>, u8)>, uv: Seq<char>) -> bool {
    exists|i: int| 0 <= i < nodes.len() && (#[trigger] nodes[i]).0 == uv
}

/// Whether no node pair is kept twice in `nodes`.
pub open spec fn distinct_nodes(nodes: Seq<(Seq<char>, u8)>) -> bool {
    forall|i: int, j: int|
        0 <= i < j < nodes.len() ==> (#[trigger] nodes[i]).0 != (#[trigger] nodes[j]).0
}

/// What holds of the node pairs after one that was not among them is added.
proof fn lemma_one_more_node(
    before: Seq<(Seq<char>, u8)>,
    after: Seq<(Seq<char>, u8)>,
    uv: Seq<char>,
    c: u8,
)
    requires
        after == before.push((uv, c)),
        !among_nodes(before, uv),
        distinct_nodes(before),
    ensures
        distinct_nodes(after),
        forall|x: Seq<char>| among_nodes(after, x) <==> (x == uv || among_nodes(before, x)),
{
    assert forall|x: Seq<char>| among_nodes(after, x) <==> (x == uv || among_nodes(before, x)) by {
        if x == uv {
            assert(after[before.len() as int].0 == x);
        }
        if among_nodes(before, x) {
            let i = choose|i: int| 0 <= i < before.len() && (#[trigger] before[i]).0 == x;
            assert(after[i].0 == x);
        }
    }
}

/// What holds of the orbit pairs after one that was not among them is added.
proof fn lemma_one_more_orbit(before: Seq<Seq<char>>, after: Seq<Seq<char>>, op: Seq<char>)
    requires
        after == before.push(op),
        !before.contains(op),
        before.no_duplicates(),
    ensures
        after.no_duplicates(),
        forall|x: Seq<char>| after.contains(x) <==> (x == op || before.contains(x)),
{
    assert forall|x: Seq<char>| after.contains(x) <==> (x == op || before.contains(x)) by {
        if x == op {
            assert(after[before.len() as int] == x);
        }
        if before.contains(x) {
            let i = choose|i: int| 0 <= i < before.len() && before[i] == x;
            assert(after[i] == x);
        }
    }
}

/// The state of the two passes.
pub struct Pipeline {
    sketch: CountMinSketch,
    count: u64,
    nodes: Vec<(String, u8)>,
    orbits: Vec<String>,
    seen_nodes: StringHashSet,
    seen_orbits: StringHashSet,
}

impl View for Pipeline {
    type V = PipelineView;

    closed spec fn view(&self) -> PipelineView {
        PipelineView {
            sketch: self.sketch@,
            count: self.count as nat,
            nodes: self.nodes@.map_values(|n: (String, u8)| (n.0@, n.1)),
            orbits: self.orbits@.map_values(|o: String| o@),
        }
    }
}

impl Pipeline {
    /// Whether the state is one that the first pass can have reached: the
    /// sketch is sound, as many keys were put into it as lines were counted,
    /// and no node pair and no orbit pair is kept twice.
    pub closed spec fn wf(&self) -> bool {
        &&& self.sketch.wf()
        &&& self@.sketch.keys.len() == self@.count
        &&& forall|uv: Seq<char>| self.seen_nodes@.contains(uv) <==> self@.knows_node(uv)
        &&& forall|op: Seq<char>| self.seen_orbits@.contains(op) <==> self@.knows_orbit(op)
        &&& distinct_nodes(self@.nodes)
        &&& self@.orbits.no_duplicates()
    }

    /// In a state that the first pass can have reached, as many keys were put
    /// into the sketch as lines were counted, and no node pair and no orbit
    /// pair is kept twice.
    pub proof fn lemma_kept_once(&self)
        requires
            self.wf(),
        ensures
            self@.sketch.keys.len() == self@.count,
            distinct_nodes(self@.nodes),
            self@.orbits.no_duplicates(),
    {
    }

    /// The state before the first line, with an empty sketch of `depth` rows
    /// and `width` columns.
    pub fn new(depth: usize, width: usize) -> (r: Result<Self, SketchError>)
        ensures
            match r {
                Ok(p) => {
                    &&& p.wf()
                    &&& crate::cms::admitted(depth as nat, width as nat) == Ok::<u64, SketchError>(
                        p@.sketch.modulus,
                    )
                    &&& p@.sketch.depth == depth
                    &&& p@.sketch.width == width
                    &&& p@.sketch.keys == Multiset::<Seq<char>>::empty()
                    &&& p@.count == 0
                    &&& p@.nodes == Seq::<(Seq<char>, u8)>::empty()
                    &&& p@.orbits == Seq::<Seq<char>>::empty()
                },
                Err(e) => crate::cms::admitted(depth as nat, width as nat) == Err::<
                    u64,
                    SketchError,
                >(e),
            },
    {
        match CountMinSketch::new(depth, width) {
            Err(e) => Err(e),
            Ok(sketch) => {
                Ok(
                    Pipeline {
                        sketch,
                        count: 0,
                        nodes: Vec::new(),
                        orbits: Vec::new(),
                        seen_nodes: StringHashSet::new(),
                        seen_orbits: StringHashSet::new(),
                    },
                )
            },
        }
    }

    /// The number of lines taken so far.
    pub fn count(&self) -> (r: u64)
        ensures
            r == self@.count,
    {
        self.count
    }

    /// The noise floor for the lines taken so far, under the error rate
    /// `num / den`: the error rate times the number of lines, rounded down.
    /// An error rate that is not above 0 and below 1 is refused.
    pub fn noise_floor(&self, num: u64, den: u64) -> (r: Result<u64, SketchError>)
        ensures
            match r {
                Ok(range) => 0 < num < den && range == noise_floor_of(self@.count, num, den),
                Err(e) => !(0 < num < den) && e == SketchError::InvalidParameters,
            },
    {
        if num == 0 || num >= den {
            return Err(SketchError::InvalidParameters);
        }
        let count = self.count;
        assert(count * num <= u64::MAX * u64::MAX) by (nonlinear_arith)
            requires
                count <= u64::MAX,
                num <= u64::MAX,
        ;
        let product: u128 = count as u128 * num as u128;
        let range: u128 = product / den as u128;
        assert(range <= count) by (nonlinear_arith)
            requires
                range == (count * num) / (den as int),
                0 < num < den,
                0 <= count,
        ;
        Ok(range as u64)
    }

    /// The key under which an orbit pair is counted for a node pair.
    fn key(uv: &String, op: &String) -> (r: String)
        ensures
            r@ == key_of(uv@, op@),
    {
        let mut key = uv.clone();
        key.push(':');
        key.append(op.as_str());
        key
    }

    /// The first pass, for one line: its key is put into the sketch, the line
    /// is counted, and its node pair and its orbit pair are kept where they
    /// are new.
    pub fn observe(&mut self, info: &CMSInfo)
        requires
            old(self).wf(),
            old(self)@.count < u64::MAX,
        ensures
            final(self).wf(),
            final(self)@ == old(self)@.observe(info@),
    {
        let key = Self::key(&info.uv, &info.op);
        self.sketch.put(key.as_str());
        self.count = self.count + 1;
        if self.seen_nodes.insert(info.uv.clone()) {
            self.nodes.push((info.uv.clone(), info.c));
        }
        if self.seen_orbits.insert(info.op.clone()) {
            self.orbits.push(info.op.clone());
        }
        proof {
            let before = old(self)@;
            let after = self@;
            vstd::multiset::lemma_insert_len(before.sketch.keys, key@);
            if !before.knows_node(info.uv@) {
                assert(after.nodes =~= before.nodes.push((info.uv@, info.c)));
                lemma_one_more_node(before.nodes, after.nodes, info.uv@, info.c);
            }
            assert forall|uv: Seq<char>| self.seen_nodes@.contains(uv) <==> after.knows_node(
                uv,
            ) by {
                assert(old(self).seen_nodes@.contains(uv) <==> before.knows_node(uv));
            }
            if !before.knows_orbit(info.op@) {
                assert(after.orbits =~= before.orbits.push(info.op@));
                lemma_one_more_orbit(before.orbits, after.orbits, info.op@);
            }
            assert forall|op: Seq<char>| self.seen_orbits@.contains(op) <==> after.knows_orbit(
                op,
            ) by {
                assert(old(self).seen_orbits@.contains(op) <==> before.knows_orbit(op));
            }
        }
    }

    /// What is reported for a node pair of all orbit pairs.
    fn probe(&self, uv: &String, range: u64) -> (r: Vec<(String, Count)>)
        requires
            self.wf(),
        ensures
            hits_view(r@) == self@.hits(uv@, range as nat, self@.orbits.len()),
    {
        let mut hits: Vec<(String, Count)> = Vec::new();
        let n = self.orbits.len();
        let mut i: usize = 0;
        while i < n
            invariant
                self.wf(),
                i <= n,
                n == self.orbits@.len(),
                hits_view(hits@) =~= self@.hits(uv@, range as nat, i as nat),
            decreases n - i,
        {
            let op = &self.orbits[i];
            let key = Self::key(uv, op);
            match self.sketch.get(key.as_str()) {
                Some(raw) => {
                    if raw as u64 > range {
                        let estimate: Count = raw - range as Count;
                        hits.push((op.clone(), estimate));
                    }
                },
                None => {},
            }
            i += 1;
        }
        hits
    }

    /// The second pass: the report under the noise floor `range`.
    pub fn report(&self, range: u64) -> (r: Vec<ReportEntry>)
        requires
            self.wf(),
        ensures
            entries_view(r@) == self@.report(range as nat),
    {
        let mut out: Vec<ReportEntry> = Vec::new();
        let n = self.nodes.len();
        let mut i: usize = 0;
        while i < n
            invariant
                self.wf(),
                i <= n,
                n == self.nodes@.len(),
                entries_view(out@) =~= self@.entries(range as nat, i as nat),
            decreases n - i,
        {
            let node = &self.nodes[i];
            let hits = self.probe(&node.0, range);
            if hits.len() > 0 {
                let entry = ReportEntry { uv: node.0.clone(), c: node.1, orbits: hits };
                out.push(entry);
            }
            i += 1;
        }
        out
    }
}

} // verus!
