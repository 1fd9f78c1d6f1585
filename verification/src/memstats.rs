//! Memory instrumentation: what is counted, and the lines that report it.
//!
//! Every report is one labelled line, `tir-mem: <kind> key=value ...`, so a run can
//! be searched and compared across stages.
use vstd::prelude::*;
use vstd::string::*;
use crate::context::Context;
use crate::dialects::builtin::float::is_space;
use crate::dialects::builtin::float::space;
use crate::overlay::LayerView;
use crate::text::cat2;
use crate::text::cat3;
use crate::text::cat5;
use crate::text::decimal;
use crate::text::decimal_string;
use crate::text::same;
use crate::text::signed_decimal;
use crate::text::signed_decimal_string;
use crate::text::text_before;
use crate::text::text_less;
use crate::text::text_order_is_total;
use crate::text::text_order_is_transitive;

verus! {

/// Slab capacities against live-entity counts; the gap is unreclaimed storage.
#[derive(Debug, Clone, Copy, PartialEq, Eq, Structural)]
pub struct SlabCensus {
    pub ops_slab: usize,
    pub ops_live: usize,
    pub values_slab: usize,
    pub values_live: usize,
    pub blocks_slab: usize,
    pub blocks_live: usize,
    pub regions_slab: usize,
    pub regions_live: usize,
    pub bytes: SlabBytes,
}

/// How many bytes each slab holds. Attribute payloads are not chased, so these are
/// estimates for ranking.
#[derive(Debug, Clone, Copy, PartialEq, Eq, Structural)]
pub struct SlabBytes {
    pub ops: usize,
    pub values: usize,
    pub blocks: usize,
    pub regions: usize,
    pub slab: usize,
}

/// How many of the first `n` records of a layer are live.
pub open spec fn live_records<V>(layer: LayerView<V>, n: int) -> nat
    decreases n,
{
    if n <= 0 {
        0
    } else {
        live_records(layer, n - 1) + if layer.now[n - 1] is Some {
            1nat
        } else {
            0nat
        }
    }
}

impl Context {
    /// Counts the storage of the IR: what was ever minted, and what of it is live.
    /// `bytes` is what the slabs were found to hold.
    pub fn slab_census(&self, bytes: SlabBytes) -> (r: SlabCensus)
        requires
            self.inv(),
        ensures
            ({
                let ir = self@.ir;
                &&& r.ops_slab == ir.ops.now.len()
                &&& r.ops_live == live_records(ir.ops, ir.ops.now.len() as int)
                &&& r.values_slab == ir.values.now.len()
                &&& r.values_live == live_records(ir.values, ir.values.now.len() as int)
                &&& r.blocks_slab == ir.blocks.now.len()
                &&& r.blocks_live == live_records(ir.blocks, ir.blocks.now.len() as int)
                &&& r.regions_slab == ir.regions.now.len()
                &&& r.regions_live == live_records(ir.regions, ir.regions.now.len() as int)
                &&& r.bytes == bytes
            }),
    {
        proof {
            self.inv_wf();
        }
        let ops_slab: usize = self.op_count();
        let mut ops_live: usize = 0;
        let mut i: usize = 0;
        while i < ops_slab
            invariant
                self.inv(),
                ops_slab == self@.ir.ops.now.len(),
                ops_slab <= u32::MAX,
                ops_live <= i <= ops_slab,
                ops_live == live_records(self@.ir.ops, i as int),
            decreases ops_slab - i,
        {
            if self.has_operation(crate::ids::OpId(i as u32)) {
                ops_live += 1;
            }
            i += 1;
        }
        let values_slab: usize = self.value_count();
        let mut values_live: usize = 0;
        let mut i: usize = 0;
        while i < values_slab
            invariant
                self.inv(),
                values_slab == self@.ir.values.now.len(),
                values_slab <= u32::MAX,
                values_live <= i <= values_slab,
                values_live == live_records(self@.ir.values, i as int),
            decreases values_slab - i,
        {
            if self.has_value(crate::ids::ValueId(i as u32)) {
                values_live += 1;
            }
            i += 1;
        }
        let blocks_slab: usize = self.block_count();
        let mut blocks_live: usize = 0;
        let mut i: usize = 0;
        while i < blocks_slab
            invariant
                self.inv(),
                blocks_slab == self@.ir.blocks.now.len(),
                blocks_slab <= u32::MAX,
                blocks_live <= i <= blocks_slab,
                blocks_live == live_records(self@.ir.blocks, i as int),
            decreases blocks_slab - i,
        {
            if self.has_block(crate::ids::BlockId(i as u32)) {
                blocks_live += 1;
            }
            i += 1;
        }
        let regions_slab: usize = self.region_count();
        let mut regions_live: usize = 0;
        let mut i: usize = 0;
        while i < regions_slab
            invariant
                self.inv(),
                regions_slab == self@.ir.regions.now.len(),
                regions_slab <= u32::MAX,
                regions_live <= i <= regions_slab,
                regions_live == live_records(self@.ir.regions, i as int),
            decreases regions_slab - i,
        {
            if self.has_region(crate::ids::RegionId(i as u32)) {
                regions_live += 1;
            }
            i += 1;
        }
        SlabCensus {
            ops_slab,
            ops_live,
            values_slab,
            values_live,
            blocks_slab,
            blocks_live,
            regions_slab,
            regions_live,
            bytes,
        }
    }
}

/// ` key=value`.
pub open spec fn entry(key: Seq<char>, n: int) -> Seq<char> {
    " "@ + key + "="@ + signed_decimal(n)
}

fn entry_text(key: &str, n: usize) -> (s: String)
    ensures
        s@ == entry(key@, n as int),
{
    let number = decimal_string(n as u64);
    let mut s = cat3(" ", key, "=");
    s.append(number.as_str());
    s
}

fn signed_entry_text(key: &str, n: i64) -> (s: String)
    ensures
        s@ == entry(key@, n as int),
{
    let number = signed_decimal_string(n);
    let mut s = cat3(" ", key, "=");
    s.append(number.as_str());
    s
}

/// Straddles one pass run: its name, and the peak and current resident set in kB
/// when it began.
#[derive(Debug)]
pub struct PassScope {
    pub name: &'static str,
    pub hwm: u64,
    pub rss: u64,
}

/// How far `after` is past `before`.
pub open spec fn delta(after: u64, before: u64) -> int {
    after - before
}

impl PassScope {
    /// The line on how far a pass has moved the peak and the resident set.
    pub open spec fn pass_line(self, hwm: u64, rss: u64) -> Seq<char> {
        "tir-mem: pass name="@ + self.name@ + entry("vmhwm_kb"@, hwm as int) + entry(
            "hwm_delta_kb"@,
            delta(hwm, self.hwm),
        ) + entry("rss_delta_kb"@, delta(rss, self.rss))
    }

    /// The line on what the context holds after the pass.
    pub open spec fn context_line(self, census: SlabCensus) -> Seq<char> {
        "tir-mem: context after="@ + self.name@ + entry("ops_slab"@, census.ops_slab as int)
            + entry("ops_live"@, census.ops_live as int) + entry(
            "values_slab"@,
            census.values_slab as int,
        ) + entry("values_live"@, census.values_live as int) + entry(
            "blocks_slab"@,
            census.blocks_slab as int,
        ) + entry("blocks_live"@, census.blocks_live as int) + entry(
            "regions_slab"@,
            census.regions_slab as int,
        ) + entry("regions_live"@, census.regions_live as int) + entry(
            "ops_bytes"@,
            census.bytes.ops as int,
        ) + entry("values_bytes"@, census.bytes.values as int) + entry(
            "blocks_bytes"@,
            census.bytes.blocks as int,
        ) + entry("regions_bytes"@, census.bytes.regions as int) + entry(
            "slab_bytes"@,
            census.bytes.slab as int,
        ) + entry("bytes_per_live_op"@, bytes_per_live_op(census))
    }

    /// What the end of a pass reports, given the peak and the resident set by
    /// then, and what it adds to the peak. The two figures fit a signed number.
    pub fn finish(&self, hwm: u64, rss: u64, census: &SlabCensus) -> (r: (String, String, i64))
        requires
            hwm <= i64::MAX,
            rss <= i64::MAX,
            self.hwm <= i64::MAX,
            self.rss <= i64::MAX,
        ensures
            r.0@ == self.pass_line(hwm, rss),
            r.1@ == self.context_line(*census),
            r.2 == delta(hwm, self.hwm),
    {
        let moved: i64 = hwm as i64 - self.hwm as i64;
        let pass = cat5(
            "tir-mem: pass name=",
            self.name,
            signed_entry_text("vmhwm_kb", hwm as i64).as_str(),
            signed_entry_text("hwm_delta_kb", moved).as_str(),
            signed_entry_text("rss_delta_kb", rss as i64 - self.rss as i64).as_str(),
        );
        let mut context = cat2("tir-mem: context after=", self.name);
        context.append(entry_text("ops_slab", census.ops_slab).as_str());
        context.append(entry_text("ops_live", census.ops_live).as_str());
        context.append(entry_text("values_slab", census.values_slab).as_str());
        context.append(entry_text("values_live", census.values_live).as_str());
        context.append(entry_text("blocks_slab", census.blocks_slab).as_str());
        context.append(entry_text("blocks_live", census.blocks_live).as_str());
        context.append(entry_text("regions_slab", census.regions_slab).as_str());
        context.append(entry_text("regions_live", census.regions_live).as_str());
        context.append(entry_text("ops_bytes", census.bytes.ops).as_str());
        context.append(entry_text("values_bytes", census.bytes.values).as_str());
        context.append(entry_text("blocks_bytes", census.bytes.blocks).as_str());
        context.append(entry_text("regions_bytes", census.bytes.regions).as_str());
        context.append(entry_text("slab_bytes", census.bytes.slab).as_str());
        let live: usize = if census.ops_live > 1 {
            census.ops_live
        } else {
            1
        };
        context.append(entry_text("bytes_per_live_op", census.bytes.ops / live).as_str());
        (pass, context, moved)
    }
}

/// The bytes of operations shared out over the live ones.
pub open spec fn bytes_per_live_op(census: SlabCensus) -> int {
    census.bytes.ops as int / if census.ops_live > 1 {
        census.ops_live as int
    } else {
        1
    }
}

/// Whether reporting is on: it was forced, or the environment asks for it with
/// anything but `0`.
pub fn enabled(forced: bool, variable: Option<&str>) -> (r: bool)
    ensures
        r == (forced || variable is Some && variable->0@ != "0"@),
{
    if forced {
        return true;
    }
    match variable {
        Some(text) => !same(text, "0"),
        None => false,
    }
}

/// What straddles a run of the pass `name`, given the status of the process;
/// `None` when reporting is off.
pub fn pass_scope(on: bool, name: &'static str, status: &str) -> (r: Option<PassScope>)
    ensures
        r is Some == on,
        r is Some ==> r->0.name == name && r->0.hwm == field(status@, "VmHWM:"@) && r->0.rss
            == field(status@, "VmRSS:"@),
{
    if !on {
        return None;
    }
    let (hwm, rss) = resident(status);
    Some(PassScope { name, hwm, rss })
}

/// The line on how many analysis results are held after a pass; `None` when
/// reporting is off.
pub fn analysis_census(on: bool, pass: &str, entries: usize) -> (r: Option<String>)
    ensures
        r is Some == on,
        r is Some ==> r->0@ == "tir-mem: analyses after="@ + pass@ + entry(
            "entries"@,
            entries as int,
        ),
{
    if !on {
        return None;
    }
    Some(cat3("tir-mem: analyses after=", pass, entry_text("entries", entries).as_str()))
}

/// The line on the size of a view and the bytes its columns hold; `None` when
/// reporting is off.
pub fn egraph_census(on: bool, label: &str, nodes: usize, classes: usize, bytes: usize) -> (r:
    Option<String>)
    ensures
        r is Some == on,
        r is Some ==> r->0@ == "tir-mem: egraph label="@ + label@ + entry("nodes"@, nodes as int)
            + entry("classes"@, classes as int) + entry("approx_bytes"@, bytes as int),
{
    if !on {
        return None;
    }
    Some(
        cat5(
            "tir-mem: egraph label=",
            label,
            entry_text("nodes", nodes).as_str(),
            entry_text("classes", classes).as_str(),
            entry_text("approx_bytes", bytes).as_str(),
        ),
    )
}

/// The line on one solve: the size of the problem and the bytes its edge matrices
/// occupy. `None` when reporting is off.
pub fn pbqp_census(on: bool, label: &str, nodes: usize, edges: usize, matrix_bytes: usize) -> (r:
    Option<String>)
    ensures
        r is Some == on,
        r is Some ==> r->0@ == "tir-mem: pbqp label="@ + label@ + entry("nodes"@, nodes as int)
            + entry("edges"@, edges as int) + entry("matrix_bytes"@, matrix_bytes as int),
{
    if !on {
        return None;
    }
    Some(
        cat5(
            "tir-mem: pbqp label=",
            label,
            entry_text("nodes", nodes).as_str(),
            entry_text("edges", edges).as_str(),
            entry_text("matrix_bytes", matrix_bytes).as_str(),
        ),
    )
}

/// A pass and what it has added to the peak over all its runs.
pub type Total = (&'static str, i64);

/// What each total says.
pub open spec fn total_views(totals: Seq<Total>) -> Seq<(Seq<char>, int)> {
    totals.map_values(|t: Total| (t.0@, t.1 as int))
}

/// The totals with `moved` added to that of `name`, which joins them if it is new.
pub open spec fn with_total(totals: Seq<(Seq<char>, int)>, name: Seq<char>, moved: int) -> Seq<
    (Seq<char>, int),
>
    decreases totals.len(),
{
    if totals.len() == 0 {
        seq![(name, moved)]
    } else if totals[0].0 == name {
        seq![(name, totals[0].1 + moved)] + totals.skip(1)
    } else {
        seq![totals[0]] + with_total(totals.skip(1), name, moved)
    }
}

proof fn total_at(totals: Seq<(Seq<char>, int)>, name: Seq<char>, moved: int, i: int)
    requires
        0 <= i < totals.len(),
        totals[i].0 == name,
        forall|k: int| 0 <= k < i ==> (#[trigger] totals[k]).0 != name,
    ensures
        with_total(totals, name, moved) == totals.update(i, (name, totals[i].1 + moved)),
    decreases totals.len(),
{
    if i == 0 {
        assert(with_total(totals, name, moved) =~= totals.update(0, (name, totals[0].1 + moved)));
    } else {
        let rest = totals.skip(1);
        assert forall|k: int| 0 <= k < i - 1 implies (#[trigger] rest[k]).0 != name by {
            assert(rest[k] == totals[k + 1]);
        }
        assert(totals[0].0 != name);
        total_at(rest, name, moved, i - 1);
        assert(with_total(totals, name, moved) =~= totals.update(
            i,
            (name, totals[i].1 + moved),
        ));
    }
}

proof fn total_new(totals: Seq<(Seq<char>, int)>, name: Seq<char>, moved: int)
    requires
        forall|k: int| 0 <= k < totals.len() ==> (#[trigger] totals[k]).0 != name,
    ensures
        with_total(totals, name, moved) == totals.push((name, moved)),
    decreases totals.len(),
{
    if totals.len() == 0 {
        assert(with_total(totals, name, moved) =~= totals.push((name, moved)));
    } else {
        let rest = totals.skip(1);
        assert(totals[0].0 != name);
        assert forall|k: int| 0 <= k < rest.len() implies (#[trigger] rest[k]).0 != name by {
            assert(rest[k] == totals[k + 1]);
        }
        total_new(rest, name, moved);
        assert(with_total(totals, name, moved) =~= totals.push((name, moved)));
    }
}

/// Adds what a run of a pass added to the peak to the total of the pass.
pub fn add_total(totals: &mut Vec<Total>, name: &'static str, moved: i64)
    requires
        forall|k: int|
            0 <= k < old(totals)@.len() && (#[trigger] old(totals)@[k]).0@ == name@ ==> i64::MIN
                <= old(totals)@[k].1 + moved <= i64::MAX,
    ensures
        total_views(final(totals)@) == with_total(
            total_views(old(totals)@),
            name@,
            moved as int,
        ),
{
    let ghost before = totals@;
    let ghost views = total_views(before);
    let mut i: usize = 0;
    while i < totals.len()
        invariant
            i <= totals.len(),
            totals@ == before,
            before == old(totals)@,
            views == total_views(before),
            forall|k: int| 0 <= k < i ==> (#[trigger] views[k]).0 != name@,
            forall|k: int|
                0 <= k < before.len() && (#[trigger] before[k]).0@ == name@ ==> i64::MIN
                    <= before[k].1 + moved <= i64::MAX,
        decreases totals.len() - i,
    {
        assert(views[i as int] == (before[i as int].0@, before[i as int].1 as int));
        if same(totals[i].0, name) {
            assert(before[i as int].0@ == name@);
            let sum: i64 = totals[i].1 + moved;
            totals.set(i, (name, sum));
            proof {
                total_at(views, name@, moved as int, i as int);
                assert(total_views(totals@) =~= views.update(
                    i as int,
                    (name@, views[i as int].1 + moved),
                ));
            }
            return;
        }
        i += 1;
    }
    totals.push((name, moved));
    proof {
        total_new(views, name@, moved as int);
        assert(total_views(totals@) =~= views.push((name@, moved as int)));
    }
}

/// Whether `a` comes before `b` in a summary: the larger total first, and of two
/// equal ones the one with the lesser name.
pub open spec fn ranks_before(a: (Seq<char>, int), b: (Seq<char>, int)) -> bool {
    a.1 > b.1 || a.1 == b.1 && text_less(a.0, b.0)
}

/// Whether no total comes before one that stands ahead of it.
pub open spec fn ranked(totals: Seq<(Seq<char>, int)>) -> bool {
    forall|i: int, j: int|
        0 <= i < j < totals.len() ==> !ranks_before(#[trigger] totals[j], #[trigger] totals[i])
}

fn ranks(a: &Total, b: &Total) -> (r: bool)
    ensures
        r == ranks_before((a.0@, a.1 as int), (b.0@, b.1 as int)),
{
    a.1 > b.1 || a.1 == b.1 && text_before(a.0, b.0)
}

proof fn ranking_is_transitive(a: (Seq<char>, int), b: (Seq<char>, int), c: (Seq<char>, int))
    requires
        !ranks_before(b, a),
        !ranks_before(c, b),
    ensures
        !ranks_before(c, a),
{
    text_order_is_total(a.0, b.0);
    text_order_is_total(b.0, c.0);
    text_order_is_total(a.0, c.0);
    if ranks_before(c, a) && a.1 == b.1 && b.1 == c.1 {
        if a.0 != b.0 && b.0 != c.0 {
            text_order_is_transitive(a.0, b.0, c.0);
        }
    }
}

/// The totals in the order a summary lists them.
pub fn rank(totals: &Vec<Total>) -> (r: Vec<Total>)
    ensures
        r@.to_multiset() == totals@.to_multiset(),
        ranked(total_views(r@)),
{
    let mut r: Vec<Total> = Vec::new();
    let mut i: usize = 0;
    assert(totals@.take(0) =~= r@);
    while i < totals.len()
        invariant
            i <= totals.len(),
            r@.to_multiset() == totals@.take(i as int).to_multiset(),
            ranked(total_views(r@)),
        decreases totals.len() - i,
    {
        let next: Total = totals[i];
        let ghost view = (next.0@, next.1 as int);
        let ghost before = r@;
        let ghost views = total_views(before);
        let mut at: usize = r.len();
        while at > 0 && ranks(&next, &r[at - 1])
            invariant
                at <= r.len(),
                r@ == before,
                views == total_views(before),
                view == (next.0@, next.1 as int),
                forall|k: int| at <= k < r.len() ==> ranks_before(view, #[trigger] views[k]),
            decreases at,
        {
            assert(views[at - 1] == (before[at - 1].0@, before[at - 1].1 as int));
            at -= 1;
        }
        r.insert(at, next);
        proof {
            let after = total_views(r@);
            assert(r@ =~= before.insert(at as int, next));
            assert(after =~= views.insert(at as int, view));
            if at > 0 {
                assert(views[at - 1] == (before[at - 1].0@, before[at - 1].1 as int));
                assert(!ranks_before(view, views[at - 1]));
            }
            assert forall|p: int, q: int| 0 <= p < q < after.len() implies !ranks_before(
                #[trigger] after[q],
                #[trigger] after[p],
            ) by {
                if q < at {
                    assert(after[p] == views[p] && after[q] == views[q]);
                } else if q == at {
                    assert(after[p] == views[p]);
                    if p < at - 1 {
                        assert(!ranks_before(views[at - 1], views[p]));
                        ranking_is_transitive(views[p], views[at - 1], view);
                    }
                } else if p > at {
                    assert(after[p] == views[p - 1] && after[q] == views[q - 1]);
                } else if p == at {
                    assert(after[q] == views[q - 1]);
                    assert(ranks_before(view, views[q - 1]));
                    text_order_is_total(view.0, views[q - 1].0);
                } else {
                    assert(after[p] == views[p] && after[q] == views[q - 1]);
                }
            }
            vstd::seq_lib::to_multiset_insert(before, at as int, next);
            totals@.take(i as int).to_multiset_ensures();
            before.to_multiset_ensures();
            assert(totals@.take(i + 1) =~= totals@.take(i as int).push(next));
        }
        i += 1;
    }
    assert(totals@.take(i as int) =~= totals@);
    r
}

/// What the line on a pass says of what it has added to the peak.
pub open spec fn total_line(total: (Seq<char>, int)) -> Seq<char> {
    "tir-mem: top-pass name="@ + total.0 + entry("hwm_delta_kb"@, total.1)
}

/// Whether `lines` are a summary: the peak of the process, and what the passes
/// have added to it, worst first.
pub open spec fn summarizes(lines: Seq<String>, hwm: u64, order: Seq<Total>) -> bool {
    &&& lines.len() == 1 + order.len()
    &&& lines[0]@ == "tir-mem: summary peak_vmhwm_kb="@ + decimal(hwm as nat)
    &&& forall|i: int|
        0 <= i < order.len() ==> (#[trigger] lines[1 + i])@ == total_line(
            (order[i].0@, order[i].1 as int),
        )
}

/// The peak of the process and the per-pass peak deltas, worst first; nothing when
/// reporting is off.
pub fn summary(on: bool, status: &str, totals: &Vec<Total>) -> (r: Vec<String>)
    ensures
        !on ==> r@.len() == 0,
        on ==> exists|order: Seq<Total>|
            order.to_multiset() == totals@.to_multiset() && ranked(total_views(order))
                && #[trigger] summarizes(r@, field(status@, "VmHWM:"@), order),
{
    let mut r: Vec<String> = Vec::new();
    if !on {
        return r;
    }
    let (hwm, _) = resident(status);
    r.push(cat2("tir-mem: summary peak_vmhwm_kb=", decimal_string(hwm).as_str()));
    let order = rank(totals);
    let mut i: usize = 0;
    while i < order.len()
        invariant
            i <= order.len(),
            r@.len() == 1 + i,
            r@[0]@ == "tir-mem: summary peak_vmhwm_kb="@ + decimal(hwm as nat),
            forall|k: int|
                0 <= k < i ==> (#[trigger] r@[1 + k])@ == total_line(
                    (order@[k].0@, order@[k].1 as int),
                ),
        decreases order.len() - i,
    {
        r.push(
            cat3(
                "tir-mem: top-pass name=",
                order[i].0,
                signed_entry_text("hwm_delta_kb", order[i].1).as_str(),
            ),
        );
        i += 1;
    }
    assert(summarizes(r@, hwm, order@));
    r
}

/// Whether a line of `text` starts at `p`, with `name`.
pub open spec fn named_line(text: Seq<char>, name: Seq<char>, p: int) -> bool {
    &&& p == 0 || text[p - 1] == '\n'
    &&& p + name.len() <= text.len()
    &&& text.subrange(p, p + name.len()) == name
}

/// Where the first line from `p` on that starts with `name` does.
pub open spec fn line_of(text: Seq<char>, name: Seq<char>, p: int) -> Option<int>
    decreases text.len() - p,
{
    if p < 0 || p >= text.len() {
        None
    } else if named_line(text, name, p) {
        Some(p)
    } else {
        line_of(text, name, p + 1)
    }
}

/// Where the blanks of a line end that start at `p`.
pub open spec fn blanks_end(text: Seq<char>, p: int) -> int
    decreases text.len() - p,
{
    if p < 0 || p >= text.len() || text[p] == '\n' || !is_space(text[p]) {
        p
    } else {
        blanks_end(text, p + 1)
    }
}

/// Where the word ends that starts at `p`.
pub open spec fn word_end(text: Seq<char>, p: int) -> int
    decreases text.len() - p,
{
    if p < 0 || p >= text.len() || is_space(text[p]) {
        p
    } else {
        word_end(text, p + 1)
    }
}

/// The number the digits from `lo` to `hi` spell.
pub open spec fn digits_value(text: Seq<char>, lo: int, hi: int) -> Option<nat>
    decreases hi - lo,
{
    if hi <= lo {
        Some(0)
    } else {
        match digits_value(text, lo, hi - 1) {
            Some(n) => if '0' <= text[hi - 1] <= '9' {
                Some(n * 10 + (text[hi - 1] as u32 - '0' as u32) as nat)
            } else {
                None
            },
            None => None,
        }
    }
}

/// The number the word from `lo` to `hi` spells, with a `+` before it or without;
/// zero where it spells none that fits.
pub open spec fn word_value(text: Seq<char>, lo: int, hi: int) -> u64 {
    let start = if lo < hi && text[lo] == '+' {
        lo + 1
    } else {
        lo
    };
    if start >= hi {
        0
    } else {
        match digits_value(text, start, hi) {
            Some(n) => if n <= u64::MAX {
                n as u64
            } else {
                0
            },
            None => 0,
        }
    }
}

/// The number in the first line of `text` that starts with `name`: its first word
/// past the name.
pub open spec fn field(text: Seq<char>, name: Seq<char>) -> u64 {
    match line_of(text, name, 0) {
        Some(p) => {
            let lo = blanks_end(text, p + name.len());
            word_value(text, lo, word_end(text, lo))
        },
        None => 0,
    }
}

proof fn unspelled_stays(text: Seq<char>, lo: int, i: int, hi: int)
    requires
        lo <= i <= hi,
        digits_value(text, lo, i) is None || digits_value(text, lo, i)->0 > u64::MAX,
    ensures
        digits_value(text, lo, hi) is None || digits_value(text, lo, hi)->0 > u64::MAX,
    decreases hi - i,
{
    if i < hi {
        unspelled_stays(text, lo, i, hi - 1);
    }
}

fn read_word(text: &str, lo: usize, hi: usize) -> (r: u64)
    requires
        lo <= hi <= text@.len(),
    ensures
        r == word_value(text@, lo as int, hi as int),
{
    let start: usize = if lo < hi && text.get_char(lo) == '+' {
        lo + 1
    } else {
        lo
    };
    if start >= hi {
        return 0;
    }
    let mut n: u64 = 0;
    let mut i: usize = start;
    while i < hi
        invariant
            lo <= start <= i <= hi <= text@.len(),
            start < hi,
            start == if lo < hi && text@[lo as int] == '+' {
                lo + 1
            } else {
                lo as int
            },
            digits_value(text@, start as int, i as int) == Some(n as nat),
        decreases hi - i,
    {
        let c = text.get_char(i);
        if !('0' <= c && c <= '9') {
            proof {
                assert(digits_value(text@, start as int, i + 1) is None);
                unspelled_stays(text@, start as int, i + 1, hi as int);
            }
            return 0;
        }
        let more: u128 = n as u128 * 10 + (c as u32 - '0' as u32) as u128;
        if more > u64::MAX as u128 {
            proof {
                assert(digits_value(text@, start as int, i + 1) == Some(more as nat));
                unspelled_stays(text@, start as int, i + 1, hi as int);
            }
            return 0;
        }
        n = more as u64;
        i += 1;
    }
    n
}

fn starts_line(text: &str, name: &str, p: usize, n: usize, m: usize) -> (r: bool)
    requires
        p < n,
        n == text@.len(),
        m == name@.len(),
    ensures
        r == named_line(text@, name@, p as int),
{
    if p > 0 && text.get_char(p - 1) != '\n' {
        return false;
    }
    if m > n - p {
        return false;
    }
    let mut i: usize = 0;
    while i < m
        invariant
            i <= m,
            m == name@.len(),
            n == text@.len(),
            p < n,
            m <= n - p,
            forall|k: int| 0 <= k < i ==> text@[p + k] == name@[k],
        decreases m - i,
    {
        if text.get_char(p + i) != name.get_char(i) {
            proof {
                assert(text@.subrange(p as int, p + m)[i as int] != name@[i as int]);
            }
            return false;
        }
        i += 1;
    }
    assert(text@.subrange(p as int, p + m) =~= name@);
    true
}

fn read_field(text: &str, name: &str) -> (r: u64)
    ensures
        r == field(text@, name@),
{
    let n: usize = text.unicode_len();
    let m: usize = name.unicode_len();
    let mut p: usize = 0;
    while p < n && !starts_line(text, name, p, n, m)
        invariant
            p <= n,
            n == text@.len(),
            m == name@.len(),
            line_of(text@, name@, 0) == line_of(text@, name@, p as int),
        decreases n - p,
    {
        p += 1;
    }
    if p >= n {
        return 0;
    }
    let ghost first = p + m;
    let mut lo: usize = p + m;
    while lo < n && text.get_char(lo) != '\n' && space(text.get_char(lo))
        invariant
            lo <= n,
            n == text@.len(),
            blanks_end(text@, first as int) == blanks_end(text@, lo as int),
        decreases n - lo,
    {
        lo += 1;
    }
    let mut hi: usize = lo;
    while hi < n && !space(text.get_char(hi))
        invariant
            lo <= hi <= n,
            n == text@.len(),
            word_end(text@, lo as int) == word_end(text@, hi as int),
        decreases n - hi,
    {
        hi += 1;
    }
    read_word(text, lo, hi)
}

/// The peak and the current resident set in kB, as the status of a process spells
/// them. Zero for one it does not spell.
pub fn resident(status: &str) -> (r: (u64, u64))
    ensures
        r.0 == field(status@, "VmHWM:"@),
        r.1 == field(status@, "VmRSS:"@),
{
    (read_field(status, "VmHWM:"), read_field(status, "VmRSS:"))
}

} // verus!
