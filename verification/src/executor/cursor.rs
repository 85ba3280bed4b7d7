//! Cursors of a phase: how far they reach, which part of their extent they
//! cover, and which source they ask for.

use vstd::prelude::*;

use crate::phase_outcome;
use crate::strmap::StrMap;
use crate::text;
use crate::text::{cat2, cat3, cat4, cat5, u64_text};
use crate::value::Float;

verus! {

/// One part of a partitioned extent.
#[derive(Debug, Clone, PartialEq)]
pub struct Partition {
    pub idx: u64,
    pub count: u64,
    pub start_ord: u64,
    pub end_ord: u64,
    pub start_pct: Float,
    pub end_pct: Float,
    /// The extent that the ordinals refer to.
    pub base_extent: u64,
}

fn copy_float(f: &Float) -> (r: Float)
    ensures
        r == *f,
{
    Float { bits: f.bits, text: f.text.clone() }
}

impl Partition {
    pub fn copy(&self) -> (r: Self)
        ensures
            r == *self,
    {
        Partition {
            idx: self.idx,
            count: self.count,
            start_ord: self.start_ord,
            end_ord: self.end_ord,
            start_pct: copy_float(&self.start_pct),
            end_pct: copy_float(&self.end_pct),
            base_extent: self.base_extent,
        }
    }
}

/// A partition with the ordinals that its percentages have on the extent of the
/// cursor.
#[derive(Debug, Clone, PartialEq)]
pub struct Scaled {
    pub part: Partition,
    pub start: u64,
    pub end: u64,
}

/// What the `over` clause of a cursor evaluated to.
pub enum OverValue {
    Absent,
    /// A specification, and what it resolves to on the extent of the cursor.
    Spec(Result<Vec<Partition>, String>),
    Part(Scaled),
    List(Vec<Scaled>),
    /// A value of another extension type, by its name.
    OtherExt(String),
    /// A value of another type, as it is written out.
    Unsupported(String),
}

/// A partition on an extent. A cursor without a closed extent, an empty extent
/// and a partition made for this extent keep the ordinals as they are; else
/// they follow the percentages.
pub open spec fn reprojected(s: Scaled, extent: u64, open_extent: bool) -> Partition {
    if open_extent || s.part.base_extent == extent || extent == 0 {
        s.part
    } else {
        Partition { start_ord: s.start, end_ord: s.end, base_extent: extent, ..s.part }
    }
}

pub open spec fn not_single(n: nat) -> Seq<char> {
    if n == 0 {
        "partition list is empty — spec produced no partitions"@
    } else {
        "spec resolves to "@ + text::decimal(n)
            + " partitions, but this cursor consumes it directly (no enclosing `for:` iteration). Iterate the list with `for: \"p in <param>.partitions\"` and declare the cursor `over p`, or supply a single-partition spec"@
    }
}

pub open spec fn open_extent_text() -> Seq<char> {
    "an open-extent cursor (`until_*`) has no extent to resolve a partition spec against — its declared size is just the per-pass base chunk. Resolve the spec against an explicit reference extent first (`for: \"p in partitions(<spec>, <extent>)\"`) and declare the cursor `over p`"@
}

/// What narrows the cursor, or why its `over` clause is refused.
pub open spec fn narrowing(value: OverValue, extent: u64, open_extent: bool) -> Result<
    Option<Partition>,
    Seq<char>,
> {
    match value {
        OverValue::Absent => Ok(None),
        OverValue::Spec(resolved) => if open_extent {
            Err(open_extent_text())
        } else {
            match resolved {
                Err(e) => Err(e@),
                Ok(parts) => if parts@.len() == 1 {
                    Ok(Some(parts@[0]))
                } else {
                    Err(not_single(parts@.len()))
                },
            }
        },
        OverValue::Part(s) => Ok(Some(reprojected(s, extent, open_extent))),
        OverValue::List(parts) => if parts@.len() == 1 {
            Ok(Some(reprojected(parts@[0], extent, open_extent)))
        } else {
            Err(not_single(parts@.len()))
        },
        OverValue::OtherExt(name) => Err(
            "`over` expression produced an Ext value of unexpected type `"@ + name@
                + "` — expected Partition, PartitionSpec, or PartitionList"@,
        ),
        OverValue::Unsupported(shown) => Err(
            "`over` expression produced unsupported value type — expected Str or partition-typed Ext, got "@
                + shown@,
        ),
    }
}

fn refuse_count(n: usize) -> (r: String)
    requires
        n != 1,
    ensures
        r@ == not_single(n as nat),
{
    if n == 0 {
        "partition list is empty — spec produced no partitions".to_owned()
    } else {
        cat3(
            "spec resolves to ",
            u64_text(n as u64).as_str(),
            " partitions, but this cursor consumes it directly (no enclosing `for:` iteration). Iterate the list with `for: \"p in <param>.partitions\"` and declare the cursor `over p`, or supply a single-partition spec",
        )
    }
}

fn reproject(s: &Scaled, extent: u64, open_extent: bool) -> (r: Partition)
    ensures
        r == reprojected(*s, extent, open_extent),
{
    let mut p = s.part.copy();
    if !(open_extent || p.base_extent == extent || extent == 0) {
        p.start_ord = s.start;
        p.end_ord = s.end;
        p.base_extent = extent;
    }
    p
}

/// What narrows a cursor of the given extent. A cursor consumes its partition
/// directly, so anything but a single one is refused.
pub fn resolve_over(value: &OverValue, extent: u64, open_extent: bool) -> (r: Result<
    Option<Partition>,
    String,
>)
    ensures
        match (r, narrowing(*value, extent, open_extent)) {
            (Ok(a), Ok(b)) => a == b,
            (Err(a), Err(b)) => a@ == b,
            _ => false,
        },
{
    match value {
        OverValue::Absent => Ok(None),
        OverValue::Spec(resolved) => {
            if open_extent {
                return Err(
                    "an open-extent cursor (`until_*`) has no extent to resolve a partition spec against — its declared size is just the per-pass base chunk. Resolve the spec against an explicit reference extent first (`for: \"p in partitions(<spec>, <extent>)\"`) and declare the cursor `over p`".to_owned(),
                );
            }
            match resolved {
                Err(e) => Err(e.clone()),
                Ok(parts) => {
                    if parts.len() == 1 {
                        Ok(Some(parts[0].copy()))
                    } else {
                        Err(refuse_count(parts.len()))
                    }
                },
            }
        },
        OverValue::Part(s) => Ok(Some(reproject(s, extent, open_extent))),
        OverValue::List(parts) => {
            if parts.len() == 1 {
                Ok(Some(reproject(&parts[0], extent, open_extent)))
            } else {
                Err(refuse_count(parts.len()))
            }
        },
        OverValue::OtherExt(name) => Err(
            cat3(
                "`over` expression produced an Ext value of unexpected type `",
                name.as_str(),
                "` — expected Partition, PartitionSpec, or PartitionList",
            ),
        ),
        OverValue::Unsupported(shown) => Err(
            cat2(
                "`over` expression produced unsupported value type — expected Str or partition-typed Ext, got ",
                shown.as_str(),
            ),
        ),
    }
}

/// The words for an `over` clause that is refused.
pub fn over_fault(cursor: &str, why: &str) -> (r: String)
    ensures
        r@ == "cursor '"@ + cursor@ + "': `over` clause failed to resolve: "@ + why@,
{
    cat4("cursor '", cursor, "': `over` clause failed to resolve: ", why)
}

/// A specification never narrows a cursor without a closed extent, and a
/// resolved partition passes to such a cursor unchanged.
pub proof fn law_open_cursor_keeps_ordinals(spec: Result<Vec<Partition>, String>, s: Scaled, extent: u64)
    ensures
        narrowing(OverValue::Spec(spec), extent, true) == Err::<Option<Partition>, Seq<char>>(
            open_extent_text(),
        ),
        narrowing(OverValue::Part(s), extent, true) == Ok::<Option<Partition>, Seq<char>>(
            Some(s.part),
        ),
{
}

/// What a cursor slot is set to.
pub enum SlotValue {
    Count(u64),
    Percent(Float),
    Part(Partition),
}

pub open spec fn slot_name(cursor: Seq<char>, suffix: Seq<char>) -> Seq<char> {
    cursor + "__cursor"@ + suffix
}

/// The slots of a cursor and their values, by name.
pub open spec fn slots_of(cursor: Seq<char>, part: Option<Partition>, extent: u64) -> Seq<
    (Seq<char>, SlotValue),
> {
    match part {
        Some(p) => seq![
            (slot_name(cursor, "__idx"@), SlotValue::Count(p.idx)),
            (
                slot_name(cursor, "__partition_count"@),
                SlotValue::Count(
                    if p.count >= 1 {
                        p.count
                    } else {
                        1u64
                    },
                ),
            ),
            (slot_name(cursor, "__start_pct"@), SlotValue::Percent(p.start_pct)),
            (slot_name(cursor, "__end_pct"@), SlotValue::Percent(p.end_pct)),
            (slot_name(cursor, "__start_ordinal"@), SlotValue::Count(p.start_ord)),
            (slot_name(cursor, "__end_ordinal"@), SlotValue::Count(p.end_ord)),
            (slot_name(cursor, ""@), SlotValue::Part(p)),
        ],
        None => seq![(slot_name(cursor, "__end_ordinal"@), SlotValue::Count(extent))],
    }
}

pub open spec fn slot_views(v: Seq<(String, SlotValue)>) -> Seq<(Seq<char>, SlotValue)> {
    v.map_values(|s: (String, SlotValue)| (s.0@, s.1))
}

/// The slots to set once the `over` clause of a cursor is resolved. Without
/// narrowing the end slot tells the full extent.
pub fn cursor_slots(cursor: &str, part: &Option<Partition>, extent: u64) -> (r: Vec<
    (String, SlotValue),
>)
    ensures
        slot_views(r@) == slots_of(cursor@, *part, extent),
{
    let mut r: Vec<(String, SlotValue)> = Vec::new();
    match part {
        Some(p) => {
            let count = if p.count >= 1 {
                p.count
            } else {
                1
            };
            r.push((cat3(cursor, "__cursor", "__idx"), SlotValue::Count(p.idx)));
            r.push((cat3(cursor, "__cursor", "__partition_count"), SlotValue::Count(count)));
            r.push(
                (
                    cat3(cursor, "__cursor", "__start_pct"),
                    SlotValue::Percent(copy_float(&p.start_pct)),
                ),
            );
            r.push(
                (
                    cat3(cursor, "__cursor", "__end_pct"),
                    SlotValue::Percent(copy_float(&p.end_pct)),
                ),
            );
            r.push((cat3(cursor, "__cursor", "__start_ordinal"), SlotValue::Count(p.start_ord)));
            r.push((cat3(cursor, "__cursor", "__end_ordinal"), SlotValue::Count(p.end_ord)));
            r.push((cat3(cursor, "__cursor", ""), SlotValue::Part(p.copy())));
        },
        None => {
            r.push((cat3(cursor, "__cursor", "__end_ordinal"), SlotValue::Count(extent)));
        },
    }
    assert(slot_views(r@) =~= slots_of(cursor@, *part, extent));
    r
}

/// The line that announces one of several partitions, counted from one.
pub fn partition_banner(phase_name: &str, p: &Partition) -> (r: Option<String>)
    requires
        p.count > 1 ==> p.idx < u64::MAX,
    ensures
        r is Some <==> p.count > 1,
        r matches Some(t) ==> t@ == ("phase '"@ + phase_name@ + "': partition "@ + text::decimal(
            (p.idx + 1) as nat,
        ) + "/"@) + (text::decimal(p.count as nat) + " ["@ + text::decimal(p.start_ord as nat)
            + ".."@ + text::decimal(p.end_ord as nat)) + ")"@,
{
    if p.count > 1 {
        let head = cat5(
            "phase '",
            phase_name,
            "': partition ",
            u64_text(p.idx + 1).as_str(),
            "/",
        );
        let tail = cat5(
            u64_text(p.count).as_str(),
            " [",
            u64_text(p.start_ord).as_str(),
            "..",
            u64_text(p.end_ord).as_str(),
        );
        Some(cat3(head.as_str(), tail.as_str(), ")"))
    } else {
        None
    }
}

/// How a cursor goes on when it reaches the end of its extent.
#[derive(Debug, Clone, Copy, PartialEq, Eq, Structural)]
pub enum CursorKind {
    /// It ends there.
    Range,
    ExtendingTimed,
    ExtendingPasses,
    ExtendingCount,
    ExtendingElapsedAndPasses,
    ExtendingElapsedOrPasses,
}

/// A cursor as declared.
#[derive(Debug, Clone, PartialEq)]
pub struct CursorSchema {
    pub name: String,
    pub extent: Option<u64>,
    pub kind: CursorKind,
}

/// What is known of the cursors of a phase once its scope is live, by name.
pub struct RuntimeCursors {
    pub extents: StrMap<u64>,
    pub min_ms: StrMap<u64>,
    pub min_passes: StrMap<u64>,
    pub min_count: StrMap<u64>,
    pub delta: StrMap<u64>,
    pub partition: StrMap<(u64, u64)>,
}

/// The arguments of the extension policy of a cursor, as far as it has them.
#[derive(Debug, Clone, Copy, PartialEq, Eq, Structural)]
pub struct PolicyArgs {
    pub min_ms: u64,
    pub min_passes: u64,
    pub min_count: u64,
    pub delta: Option<u64>,
}

pub open spec fn uses_ms(k: CursorKind) -> bool {
    k == CursorKind::ExtendingTimed || k == CursorKind::ExtendingElapsedAndPasses || k
        == CursorKind::ExtendingElapsedOrPasses
}

pub open spec fn uses_passes(k: CursorKind) -> bool {
    k == CursorKind::ExtendingPasses || k == CursorKind::ExtendingElapsedAndPasses || k
        == CursorKind::ExtendingElapsedOrPasses
}

pub open spec fn uses_count(k: CursorKind) -> bool {
    k == CursorKind::ExtendingCount
}

/// The length from `start` to `end`, at most `limit`.
pub open spec fn bounded_extent(start: u64, end: u64, limit: Option<u64>) -> int {
    let extent = if end >= start {
        end - start
    } else {
        0
    };
    match limit {
        Some(l) => if l < extent {
            l as int
        } else {
            extent
        },
        None => extent,
    }
}

pub open spec fn set_if<V>(m: Map<Seq<char>, V>, on: bool, name: Seq<char>, v: V) -> Map<Seq<char>, V> {
    if on {
        m.insert(name, v)
    } else {
        m
    }
}

pub open spec fn held<V>(m: Map<Seq<char>, V>, name: Seq<char>) -> Option<V> {
    if m.contains_key(name) {
        Some(m[name])
    } else {
        None
    }
}

fn look(m: &StrMap<u64>, name: &str) -> (r: Option<u64>)
    requires
        m.wf(),
    ensures
        r == held(m@, name@),
{
    match m.get(name) {
        Some(v) => Some(*v),
        None => None,
    }
}

impl RuntimeCursors {
    pub open spec fn wf(self) -> bool {
        &&& self.extents.wf()
        &&& self.min_ms.wf()
        &&& self.min_passes.wf()
        &&& self.min_count.wf()
        &&& self.delta.wf()
        &&& self.partition.wf()
    }

    pub fn new() -> (r: Self)
        ensures
            r.wf(),
            r.extents@ == Map::<Seq<char>, u64>::empty(),
            r.min_ms@ == Map::<Seq<char>, u64>::empty(),
            r.min_passes@ == Map::<Seq<char>, u64>::empty(),
            r.min_count@ == Map::<Seq<char>, u64>::empty(),
            r.delta@ == Map::<Seq<char>, u64>::empty(),
            r.partition@ == Map::<Seq<char>, (u64, u64)>::empty(),
    {
        RuntimeCursors {
            extents: StrMap::new(),
            min_ms: StrMap::new(),
            min_passes: StrMap::new(),
            min_count: StrMap::new(),
            delta: StrMap::new(),
            partition: StrMap::new(),
        }
    }

    /// Notes the bounds of a cursor that became known at run time.
    pub fn note_bounds(&mut self, name: &str, start: u64, end: u64, limit: Option<u64>)
        requires
            old(self).wf(),
        ensures
            final(self).wf(),
            final(self).extents@ == old(self).extents@.insert(
                name@,
                bounded_extent(start, end, limit) as u64,
            ),
            *final(self) == (RuntimeCursors { extents: final(self).extents, ..*old(self) }),
    {
        let extent: u64 = if end >= start {
            end - start
        } else {
            0
        };
        let bounded: u64 = match limit {
            Some(l) => if l < extent {
                l
            } else {
                extent
            },
            None => extent,
        };
        self.extents.insert(name.to_owned(), bounded);
    }

    /// The extent that the `over` clause of a cursor refers to.
    pub fn extent_of(&self, schema: &CursorSchema) -> (r: u64)
        requires
            self.wf(),
        ensures
            r == (match held(self.extents@, schema.name@) {
                Some(e) => e,
                None => match schema.extent {
                    Some(e) => e,
                    None => 0u64,
                },
            }),
    {
        match look(&self.extents, schema.name.as_str()) {
            Some(e) => e,
            None => schema.extent.unwrap_or(0),
        }
    }

    /// Notes the partition that a cursor covers.
    pub fn note_partition(&mut self, name: &str, p: &Partition)
        requires
            old(self).wf(),
        ensures
            final(self).wf(),
            final(self).partition@ == old(self).partition@.insert(name@, (p.start_ord, p.end_ord)),
            *final(self) == (RuntimeCursors { partition: final(self).partition, ..*old(self) }),
    {
        self.partition.insert(name.to_owned(), (p.start_ord, p.end_ord));
    }

    /// Notes those policy arguments that a cursor of this kind uses.
    pub fn note_policy(&mut self, name: &str, kind: CursorKind, args: PolicyArgs)
        requires
            old(self).wf(),
        ensures
            final(self).wf(),
            final(self).min_ms@ == set_if(old(self).min_ms@, uses_ms(kind), name@, args.min_ms),
            final(self).min_passes@ == set_if(
                old(self).min_passes@,
                uses_passes(kind),
                name@,
                args.min_passes,
            ),
            final(self).min_count@ == set_if(
                old(self).min_count@,
                uses_count(kind),
                name@,
                args.min_count,
            ),
            final(self).delta@ == (match args.delta {
                Some(d) => set_if(old(self).delta@, kind != CursorKind::Range, name@, d),
                None => old(self).delta@,
            }),
            final(self).extents == old(self).extents,
            final(self).partition == old(self).partition,
    {
        let ms = match kind {
            CursorKind::ExtendingTimed => true,
            CursorKind::ExtendingElapsedAndPasses => true,
            CursorKind::ExtendingElapsedOrPasses => true,
            _ => false,
        };
        let passes = match kind {
            CursorKind::ExtendingPasses => true,
            CursorKind::ExtendingElapsedAndPasses => true,
            CursorKind::ExtendingElapsedOrPasses => true,
            _ => false,
        };
        if ms {
            self.min_ms.insert(name.to_owned(), args.min_ms);
        }
        if passes {
            self.min_passes.insert(name.to_owned(), args.min_passes);
        }
        if kind == CursorKind::ExtendingCount {
            self.min_count.insert(name.to_owned(), args.min_count);
        }
        if kind != CursorKind::Range {
            if let Some(d) = args.delta {
                self.delta.insert(name.to_owned(), d);
            }
        }
    }
}

/// When an extending source stops growing.
#[derive(Debug, Clone, Copy, PartialEq, Eq, Structural)]
pub enum ExtensionPolicy {
    UntilElapsed { min_ms: u64 },
    UntilPasses { min_passes: u64 },
    UntilCount { min_count: u64 },
    Both { min_ms: u64, min_passes: u64 },
    Either { min_ms: u64, min_passes: u64 },
}

/// The source that a cursor asks for.
#[derive(Debug, Clone, Copy, PartialEq, Eq, Structural)]
pub enum SourcePlan {
    /// From `start` to `end`.
    Range { start: u64, end: u64 },
    /// From `start` in chunks, growing by `delta`, at most to `bound`.
    Extending { start: u64, chunk: u64, delta: u64, policy: ExtensionPolicy, bound: Option<u64> },
}

pub open spec fn or_zero(v: Option<u64>) -> u64 {
    match v {
        Some(n) => n,
        None => 0u64,
    }
}

pub open spec fn lesser(a: u64, b: u64) -> u64 {
    if a <= b {
        a
    } else {
        b
    }
}

/// The source of a cursor: its run-time extent, else its declared one, else the
/// cycles of the phase, narrowed to its partition. An extending source keeps
/// its chunk within the partition and may not grow past it.
pub open spec fn source_plan(c: RuntimeCursors, schema: CursorSchema, phase_cycles: u64) -> SourcePlan {
    let name = schema.name@;
    let extent = match held(c.extents@, name) {
        Some(e) => e,
        None => match schema.extent {
            Some(e) => e,
            None => phase_cycles,
        },
    };
    let part = held(c.partition@, name);
    let range = match part {
        Some(p) => p,
        None => (0u64, extent),
    };
    let covered = if range.1 >= range.0 {
        (range.1 - range.0) as u64
    } else {
        0u64
    };
    let chunk = lesser(extent, covered);
    let ms = or_zero(held(c.min_ms@, name));
    let passes = or_zero(held(c.min_passes@, name));
    let count = or_zero(held(c.min_count@, name));
    if schema.kind == CursorKind::Range {
        SourcePlan::Range { start: range.0, end: range.1 }
    } else {
        SourcePlan::Extending {
            start: range.0,
            chunk,
            delta: match held(c.delta@, name) {
                Some(d) => d,
                None => chunk,
            },
            policy: match schema.kind {
                CursorKind::ExtendingTimed => ExtensionPolicy::UntilElapsed { min_ms: ms },
                CursorKind::ExtendingPasses => ExtensionPolicy::UntilPasses { min_passes: passes },
                CursorKind::ExtendingCount => ExtensionPolicy::UntilCount { min_count: count },
                CursorKind::ExtendingElapsedAndPasses => ExtensionPolicy::Both {
                    min_ms: ms,
                    min_passes: passes,
                },
                _ => ExtensionPolicy::Either { min_ms: ms, min_passes: passes },
            },
            bound: if part is Some {
                Some(range.1)
            } else {
                None
            },
        }
    }
}

/// The source of the first cursor of a phase; none for a phase without cursors.
pub fn plan_source(cursors: &RuntimeCursors, schemas: &Vec<CursorSchema>, phase_cycles: u64) -> (r:
    Option<SourcePlan>)
    requires
        cursors.wf(),
    ensures
        r == (if schemas@.len() > 0 {
            Some(source_plan(*cursors, schemas@[0], phase_cycles))
        } else {
            None
        }),
{
    if schemas.len() == 0 {
        return None;
    }
    let schema = &schemas[0];
    let name = schema.name.as_str();
    let extent: u64 = match look(&cursors.extents, name) {
        Some(e) => e,
        None => schema.extent.unwrap_or(phase_cycles),
    };
    let part: Option<(u64, u64)> = match cursors.partition.get(name) {
        Some(p) => Some(*p),
        None => None,
    };
    let (start, end) = part.unwrap_or((0, extent));
    let covered: u64 = if end >= start {
        end - start
    } else {
        0
    };
    let chunk: u64 = if extent <= covered {
        extent
    } else {
        covered
    };
    let delta: u64 = look(&cursors.delta, name).unwrap_or(chunk);
    let min_ms: u64 = look(&cursors.min_ms, name).unwrap_or(0);
    let min_passes: u64 = look(&cursors.min_passes, name).unwrap_or(0);
    let min_count: u64 = look(&cursors.min_count, name).unwrap_or(0);
    let policy = match schema.kind {
        CursorKind::Range => {
            return Some(SourcePlan::Range { start, end });
        },
        CursorKind::ExtendingTimed => ExtensionPolicy::UntilElapsed { min_ms },
        CursorKind::ExtendingPasses => ExtensionPolicy::UntilPasses { min_passes },
        CursorKind::ExtendingCount => ExtensionPolicy::UntilCount { min_count },
        CursorKind::ExtendingElapsedAndPasses => ExtensionPolicy::Both { min_ms, min_passes },
        CursorKind::ExtendingElapsedOrPasses => ExtensionPolicy::Either { min_ms, min_passes },
    };
    let bound: Option<u64> = if part.is_some() {
        Some(end)
    } else {
        None
    };
    Some(SourcePlan::Extending { start, chunk, delta, policy, bound })
}

/// The name under which the progress of a phase is shown: that of its first
/// cursor.
pub fn progress_name(schemas: &Vec<CursorSchema>) -> (r: String)
    ensures
        r@ == (if schemas@.len() > 0 {
            schemas@[0].name@
        } else {
            "cycles"@
        }),
{
    if schemas.len() > 0 {
        schemas[0].name.clone()
    } else {
        "cycles".to_owned()
    }
}

/// A chunk never reaches past the partition that the cursor covers.
pub proof fn law_chunk_within_partition(c: RuntimeCursors, schema: CursorSchema, phase_cycles: u64)
    requires
        c.partition@.contains_key(schema.name@),
        c.partition@[schema.name@].0 <= c.partition@[schema.name@].1,
    ensures
        source_plan(c, schema, phase_cycles) matches SourcePlan::Extending {
            start,
            chunk,
            delta,
            policy,
            bound,
        } ==> bound == Some(c.partition@[schema.name@].1) && start + chunk <= bound->0,
        source_plan(c, schema, phase_cycles) matches SourcePlan::Range { start, end } ==> (
            start,
            end,
        ) == c.partition@[schema.name@],
{
}

/// `extent` is how far a cursor reaches: what was found at run time, else what is
/// declared, else the cycles of the phase.
pub open spec fn is_reach(c: RuntimeCursors, schema: CursorSchema, phase_cycles: u64, extent: u64) -> bool {
    &&& c.extents@.contains_key(schema.name@) ==> extent == c.extents@[schema.name@]
    &&& !c.extents@.contains_key(schema.name@) && schema.extent is Some ==> Some(extent)
        == schema.extent
    &&& !c.extents@.contains_key(schema.name@) && schema.extent is None ==> extent == phase_cycles
}

/// A cursor that is not narrowed covers its whole reach from zero on: a range cursor ends
/// there, and an extending one takes it as its chunk and may grow without bound.
pub proof fn law_unnarrowed_cursor_covers_its_reach(
    c: RuntimeCursors,
    schema: CursorSchema,
    phase_cycles: u64,
    extent: u64,
)
    requires
        !c.partition@.contains_key(schema.name@),
        is_reach(c, schema, phase_cycles, extent),
    ensures
        schema.kind == CursorKind::Range ==> source_plan(c, schema, phase_cycles)
            == (SourcePlan::Range { start: 0, end: extent }),
        schema.kind != CursorKind::Range ==> {
            &&& source_plan(c, schema, phase_cycles) matches SourcePlan::Extending {
                start,
                chunk,
                delta,
                policy,
                bound,
            }
            &&& start == 0
            &&& chunk == extent
            &&& bound is None
        },
{
}

/// A cursor that is narrowed covers its partition: a range cursor exactly, while an
/// extending one starts with it, may not grow past it, and takes as its chunk its reach or
/// the length of the partition, whichever is less.
pub proof fn law_narrowed_cursor_covers_its_partition(
    c: RuntimeCursors,
    schema: CursorSchema,
    phase_cycles: u64,
    extent: u64,
    from: u64,
    to: u64,
)
    requires
        c.partition@.contains_key(schema.name@),
        c.partition@[schema.name@] == (from, to),
        is_reach(c, schema, phase_cycles, extent),
    ensures
        schema.kind == CursorKind::Range ==> source_plan(c, schema, phase_cycles)
            == (SourcePlan::Range { start: from, end: to }),
        schema.kind != CursorKind::Range ==> {
            &&& source_plan(c, schema, phase_cycles) matches SourcePlan::Extending {
                start,
                chunk,
                delta,
                policy,
                bound,
            }
            &&& start == from
            &&& bound == Some(to)
            &&& chunk <= extent
            &&& from <= to ==> chunk <= to - from && (chunk == extent || chunk == to - from)
            &&& from > to ==> chunk == 0
        },
{
}

/// `v` is what was noted under `name`, else `other`.
pub open spec fn is_noted(m: Map<Seq<char>, u64>, name: Seq<char>, other: u64, v: u64) -> bool {
    &&& m.contains_key(name) ==> v == m[name]
    &&& !m.contains_key(name) ==> v == other
}

/// An extending cursor grows by what was noted for it, else by its chunk, and goes on for
/// as long as its kind says: by time, by passes, by count, by both of the first two or by
/// either, each with what was noted for it, else with none.
pub proof fn law_extension_follows_what_was_noted(
    c: RuntimeCursors,
    schema: CursorSchema,
    phase_cycles: u64,
)
    requires
        schema.kind != CursorKind::Range,
    ensures
        ({
            let name = schema.name@;
            &&& source_plan(c, schema, phase_cycles) matches SourcePlan::Extending {
                start,
                chunk,
                delta,
                policy,
                bound,
            }
            &&& is_noted(c.delta@, name, chunk, delta)
            &&& match policy {
                ExtensionPolicy::UntilElapsed { min_ms } => schema.kind == CursorKind::ExtendingTimed
                    && is_noted(c.min_ms@, name, 0, min_ms),
                ExtensionPolicy::UntilPasses { min_passes } => schema.kind
                    == CursorKind::ExtendingPasses && is_noted(c.min_passes@, name, 0, min_passes),
                ExtensionPolicy::UntilCount { min_count } => schema.kind
                    == CursorKind::ExtendingCount && is_noted(c.min_count@, name, 0, min_count),
                ExtensionPolicy::Both { min_ms, min_passes } => schema.kind
                    == CursorKind::ExtendingElapsedAndPasses && is_noted(c.min_ms@, name, 0, min_ms)
                    && is_noted(c.min_passes@, name, 0, min_passes),
                ExtensionPolicy::Either { min_ms, min_passes } => schema.kind
                    == CursorKind::ExtendingElapsedOrPasses && is_noted(c.min_ms@, name, 0, min_ms)
                    && is_noted(c.min_passes@, name, 0, min_passes),
            }
        }),
{
}

/// The extent that bounds amount to is neither more than lies between them nor more than
/// the limit, and no less than one of the two; bounds in the wrong order hold nothing.
pub proof fn law_bounds_give_extent(start: u64, end: u64, limit: Option<u64>)
    ensures
        ({
            let e = bounded_extent(start, end, limit);
            &&& 0 <= e
            &&& end < start ==> e == 0
            &&& end >= start ==> e <= end - start
            &&& limit matches Some(l) ==> e <= l
            &&& end >= start ==> e == end - start || limit == Some(e as u64)
        }),
{
}

/// The extent that progress is measured against: that of the source as it is
/// now, else what was known at the start.
pub fn live_extent_of(source: Option<Option<u64>>, fallback: u64) -> (r: u64)
    ensures
        r == (match source {
            Some(Some(e)) => e,
            _ => fallback,
        }),
{
    match source {
        Some(Some(e)) => e,
        _ => fallback,
    }
}

/// Rows consumed and rows in all, as the source tells them; both zero without a
/// source.
pub fn live_rows_of(source: Option<(u64, Option<u64>)>) -> (r: (u64, u64))
    ensures
        r == (match source {
            Some((consumed, Some(total))) => (consumed, total),
            Some((consumed, None)) => (consumed, 0u64),
            None => (0u64, 0u64),
        }),
{
    match source {
        Some((consumed, Some(total))) => (consumed, total),
        Some((consumed, None)) => (consumed, 0),
        None => (0, 0),
    }
}

/// The warning for a cursor whose extent is no multiple of the stanza length.
pub fn stride_warning(phase_name: &str, extent: u64, stanza_len: u64) -> (r: Option<String>)
    ensures
        r is Some <==> stanza_len > 0 && extent > 0 && extent % stanza_len != 0,
        r matches Some(t) ==> t@ == ("phase '"@ + phase_name@ + "': cursor extent ("@
            + text::decimal(extent as nat) + ") is not an even multiple of stanza length ("@) + (
        text::decimal(stanza_len as nat) + ") — boundary stanza will be "@ + text::decimal(
            (extent % stanza_len) as nat,
        ) + "/"@ + text::decimal(stanza_len as nat)) + (" of a full stride after "@
            + text::decimal((extent / stanza_len) as nat)
            + " clean stanza(s). If the op-sequence assumes complete stanzas (e.g. for relevancy or aggregation evaluation), align by sizing the cursor to a multiple of "@
            + text::decimal(stanza_len as nat)
            + ", or by adjusting stanza_concurrency / ops."@),
{
    if stanza_len > 0 && extent > 0 && extent % stanza_len != 0 {
        let len = u64_text(stanza_len);
        let a = cat5(
            "phase '",
            phase_name,
            "': cursor extent (",
            u64_text(extent).as_str(),
            ") is not an even multiple of stanza length (",
        );
        let b = cat5(
            len.as_str(),
            ") — boundary stanza will be ",
            u64_text(extent % stanza_len).as_str(),
            "/",
            len.as_str(),
        );
        let c = cat5(
            " of a full stride after ",
            u64_text(extent / stanza_len).as_str(),
            " clean stanza(s). If the op-sequence assumes complete stanzas (e.g. for relevancy or aggregation evaluation), align by sizing the cursor to a multiple of ",
            len.as_str(),
            ", or by adjusting stanza_concurrency / ops.",
        );
        Some(cat3(a.as_str(), b.as_str(), c.as_str()))
    } else {
        None
    }
}

/// How many attempts were retries: errors beyond those that ended an op.
pub fn retries(errors: u64, finished: u64, succeeded: u64) -> (r: u64)
    ensures
        ({
            let failed = if finished >= succeeded {
                finished - succeeded
            } else {
                0
            };
            r == (if errors >= failed {
                errors - failed
            } else {
                0
            })
        }),
{
    let failed: u64 = if finished >= succeeded {
        finished - succeeded
    } else {
        0
    };
    if errors >= failed {
        errors - failed
    } else {
        0
    }
}

/// A cursor is narrowed by the one partition that its clause stands for: by none without a
/// clause, and never by a clause that stands for several, for none, or for something else.
pub proof fn law_narrowed_by_one_partition(value: OverValue, extent: u64, open_extent: bool)
    ensures
        match narrowing(value, extent, open_extent) {
            Ok(None) => value is Absent,
            Ok(Some(p)) => match value {
                OverValue::Spec(Ok(parts)) => !open_extent && parts@.len() == 1 && p == parts@[0],
                OverValue::Part(s) => p.idx == s.part.idx && p.count == s.part.count,
                OverValue::List(parts) => parts@.len() == 1 && p.idx == parts@[0].part.idx
                    && p.count == parts@[0].part.count,
                _ => false,
            },
            Err(why) => match value {
                OverValue::Absent => false,
                OverValue::Part(_) => false,
                OverValue::Spec(Err(e)) => open_extent || why == e@,
                OverValue::Spec(Ok(parts)) => open_extent || parts@.len() != 1,
                OverValue::List(parts) => parts@.len() != 1,
                _ => true,
            },
        },
{
}

/// A partition that was made for another extent follows its percentages on a closed extent
/// that holds anything; else it keeps its ordinals. It then refers to the extent that its
/// ordinals are of.
pub proof fn law_partition_follows_percentages(s: Scaled, extent: u64, open_extent: bool)
    ensures
        ({
            let p = reprojected(s, extent, open_extent);
            let moves = !open_extent && extent > 0 && s.part.base_extent != extent;
            &&& moves ==> (p.start_ord, p.end_ord, p.base_extent) == (s.start, s.end, extent)
            &&& !moves ==> (p.start_ord, p.end_ord, p.base_extent) == (
                s.part.start_ord,
                s.part.end_ord,
                s.part.base_extent,
            )
            &&& (p.idx, p.count, p.start_pct, p.end_pct) == (
                s.part.idx,
                s.part.count,
                s.part.start_pct,
                s.part.end_pct,
            )
        }),
{
}

/// The slots of a cursor tell its partition: where it starts and ends, its share, its
/// number among how many (at least one), and itself. Without a partition only the end is
/// told, which is the full extent.
pub proof fn law_slots_tell_the_partition(cursor: Seq<char>, part: Option<Partition>, extent: u64)
    ensures
        ({
            let slots = slots_of(cursor, part, extent);
            let at = cursor + "__cursor"@;
            match part {
                None => slots == seq![(at + "__end_ordinal"@, SlotValue::Count(extent))],
                Some(p) => {
                    &&& slots.len() == 7
                    &&& slots.contains((at + "__idx"@, SlotValue::Count(p.idx)))
                    &&& p.count > 0 ==> slots.contains(
                        (at + "__partition_count"@, SlotValue::Count(p.count)),
                    )
                    &&& p.count == 0 ==> slots.contains(
                        (at + "__partition_count"@, SlotValue::Count(1)),
                    )
                    &&& slots.contains((at + "__start_pct"@, SlotValue::Percent(p.start_pct)))
                    &&& slots.contains((at + "__end_pct"@, SlotValue::Percent(p.end_pct)))
                    &&& slots.contains((at + "__start_ordinal"@, SlotValue::Count(p.start_ord)))
                    &&& slots.contains((at + "__end_ordinal"@, SlotValue::Count(p.end_ord)))
                    &&& slots.contains((at + ""@, SlotValue::Part(p)))
                },
            }
        }),
{
    let slots = slots_of(cursor, part, extent);
    if let Some(p) = part {
        assert(slots[0].1 == SlotValue::Count(p.idx));
        assert(slots.contains(slots[0]) && slots.contains(slots[1]) && slots.contains(slots[2])
            && slots.contains(slots[3]) && slots.contains(slots[4]) && slots.contains(slots[5])
            && slots.contains(slots[6]));
    }
}

/// What is noted of the policy of a cursor is what its source then goes by: the time, the
/// passes or the count that the kind asks for, and the growth where one is given.
pub proof fn law_noted_policy_is_gone_by(
    before: RuntimeCursors,
    after: RuntimeCursors,
    schema: CursorSchema,
    args: PolicyArgs,
    phase_cycles: u64,
)
    requires
        schema.kind != CursorKind::Range,
        after.min_ms@ == set_if(before.min_ms@, uses_ms(schema.kind), schema.name@, args.min_ms),
        after.min_passes@ == set_if(
            before.min_passes@,
            uses_passes(schema.kind),
            schema.name@,
            args.min_passes,
        ),
        after.min_count@ == set_if(
            before.min_count@,
            uses_count(schema.kind),
            schema.name@,
            args.min_count,
        ),
        args.delta matches Some(d) ==> after.delta@ == set_if(
            before.delta@,
            schema.kind != CursorKind::Range,
            schema.name@,
            d,
        ),
    ensures
        source_plan(after, schema, phase_cycles) matches SourcePlan::Extending {
            start,
            chunk,
            delta,
            policy,
            bound,
        } && {
            &&& args.delta matches Some(d) ==> delta == d
            &&& match schema.kind {
                CursorKind::ExtendingTimed => policy == (ExtensionPolicy::UntilElapsed {
                    min_ms: args.min_ms,
                }),
                CursorKind::ExtendingPasses => policy == (ExtensionPolicy::UntilPasses {
                    min_passes: args.min_passes,
                }),
                CursorKind::ExtendingCount => policy == (ExtensionPolicy::UntilCount {
                    min_count: args.min_count,
                }),
                CursorKind::ExtendingElapsedAndPasses => policy == (ExtensionPolicy::Both {
                    min_ms: args.min_ms,
                    min_passes: args.min_passes,
                }),
                _ => policy == (ExtensionPolicy::Either {
                    min_ms: args.min_ms,
                    min_passes: args.min_passes,
                }),
            }
        },
{
}

/// Noting something of one cursor leaves what is noted of any other.
pub proof fn law_cursors_are_noted_apart(
    m: Map<Seq<char>, u64>,
    on: bool,
    name: Seq<char>,
    v: u64,
    other: Seq<char>,
)
    requires
        other != name,
    ensures
        held(set_if(m, on, name, v), other) == held(m, other),
        on ==> held(set_if(m, on, name, v), name) == Some(v),
        !on ==> set_if(m, on, name, v) == m,
{
}

/// The bounds that were found at run time are what a range cursor then covers, however far
/// it is declared to reach.
pub proof fn law_noted_bounds_are_covered(
    before: RuntimeCursors,
    after: RuntimeCursors,
    schema: CursorSchema,
    start: u64,
    end: u64,
    phase_cycles: u64,
)
    requires
        schema.kind == CursorKind::Range,
        start <= end,
        after.extents@ == before.extents@.insert(
            schema.name@,
            bounded_extent(start, end, None) as u64,
        ),
        !after.partition@.contains_key(schema.name@),
    ensures
        source_plan(after, schema, phase_cycles) == (SourcePlan::Range {
            start: 0,
            end: (end - start) as u64,
        }),
{
}

} // verus!
