//! Cutting pipelines into pieces that each fit into one `SELECT`, and naming the pieces.

use std::rc::Rc;

use crate::ast::{
    Declaration, DialectHandler, Frame, MaterializationContext, MaterializedFrame, Table, TableRef,
    Transform, TransformKind, Ty,
};
use crate::error::Error;
use crate::ident::{
    ident_part, ident_parts, is_jinja, law_tables_are_read_by_their_names, plain,
    subsequent_forbidden,
};
use crate::text::{lemma_nat_text_digits, lemma_nat_text_injective, nat_text, push_nat};
use vstd::prelude::*;

verus! {

/// A pipeline that fits into one `SELECT`.
#[derive(Debug)]
pub struct AtomicTable {
    pub name: Option<TableRef>,
    pub pipeline: Vec<Transform>,
    pub frame: Option<MaterializedFrame>,
}

impl From<Vec<Transform>> for AtomicTable {
    fn from(pipeline: Vec<Transform>) -> (r: AtomicTable) {
        AtomicTable { name: None, pipeline, frame: None }
    }
}

impl vstd::std_specs::convert::FromSpecImpl<Vec<Transform>> for AtomicTable {
    open spec fn obeys_from_spec() -> bool {
        true
    }

    open spec fn from_spec(pipeline: Vec<Transform>) -> AtomicTable {
        AtomicTable { name: None, pipeline, frame: None }
    }
}

// ---------------------------------------------------------------------------
// Where a pipeline is cut
// ---------------------------------------------------------------------------

/// A transform of a piece filters.
pub open spec fn filters(piece: Seq<Transform>) -> bool {
    exists|i: int| 0 <= i < piece.len() && (#[trigger] piece[i]).kind is Filter
}

/// A transform of a piece aggregates.
pub open spec fn aggregates(piece: Seq<Transform>) -> bool {
    exists|i: int| 0 <= i < piece.len() && (#[trigger] piece[i]).kind is Aggregate
}

/// A transform of a piece sorts.
pub open spec fn sorts(piece: Seq<Transform>) -> bool {
    exists|i: int| 0 <= i < piece.len() && (#[trigger] piece[i]).kind is Sort
}

/// A transform of a piece takes a range.
pub open spec fn takes(piece: Seq<Transform>) -> bool {
    exists|i: int| 0 <= i < piece.len() && (#[trigger] piece[i]).kind is Take
}

/// A transform cannot follow a piece in the same `SELECT`. There, joins come first, then
/// filters, the aggregation, the order, filters on its result, and ranges. There is at most
/// one aggregation, and a filter on the result of a window or an aggregation stands apart from
/// what computes it.
pub open spec fn must_cut(piece: Seq<Transform>, t: Transform) -> bool {
    match t.kind {
        TransformKind::Join { .. } => filters(piece) || aggregates(piece) || sorts(piece) || takes(
            piece,
        ),
        TransformKind::Aggregate { .. } => aggregates(piece) || sorts(piece) || takes(piece),
        TransformKind::Sort(_) => takes(piece),
        TransformKind::Filter(_) => takes(piece) || t.is_complex,
        _ => false,
    }
}

/// The pieces of a pipeline: a new one starts where a transform cannot follow the last one.
pub open spec fn pieces(pipeline: Seq<Transform>) -> Seq<Seq<Transform>>
    decreases pipeline.len(),
{
    if pipeline.len() == 0 {
        seq![]
    } else {
        let before = pieces(pipeline.drop_last());
        let t = pipeline.last();
        if before.len() == 0 || must_cut(before.last(), t) {
            before.push(seq![t])
        } else {
            before.drop_last().push(before.last().push(t))
        }
    }
}

/// The pipelines of tables.
pub open spec fn pipelines(tables: Seq<AtomicTable>) -> Seq<Seq<Transform>> {
    Seq::new(tables.len(), |i: int| tables[i].pipeline@)
}

/// Tables that have neither a name nor a frame yet.
pub open spec fn unnamed(tables: Seq<AtomicTable>) -> bool {
    forall|i: int|
        0 <= i < tables.len() ==> (#[trigger] tables[i]).name is None && tables[i].frame is None
}

/// What occurs in the current piece.
struct Seen {
    filter: bool,
    aggregate: bool,
    sort: bool,
    take: bool,
}

impl Seen {
    spec fn of(self, piece: Seq<Transform>) -> bool {
        &&& self.filter == filters(piece)
        &&& self.aggregate == aggregates(piece)
        &&& self.sort == sorts(piece)
        &&& self.take == takes(piece)
    }

    fn none() -> (r: Seen)
        ensures
            r.of(seq![]),
    {
        Seen { filter: false, aggregate: false, sort: false, take: false }
    }

    fn add(self, t: &Transform, Ghost(piece): Ghost<Seq<Transform>>) -> (r: Seen)
        requires
            self.of(piece),
        ensures
            r.of(piece.push(*t)),
    {
        let ghost longer = piece.push(*t);
        proof {
            assert(longer[piece.len() as int] == *t);
            assert(forall|i: int| 0 <= i < piece.len() ==> longer[i] == #[trigger] piece[i]);
        }
        let mut seen = self;
        match &t.kind {
            TransformKind::Filter(_) => {
                seen.filter = true;
            },
            TransformKind::Aggregate { .. } => {
                seen.aggregate = true;
            },
            TransformKind::Sort(_) => {
                seen.sort = true;
            },
            TransformKind::Take { .. } => {
                seen.take = true;
            },
            _ => {},
        }
        seen
    }

    fn cuts(&self, t: &Transform, Ghost(piece): Ghost<Seq<Transform>>) -> (b: bool)
        requires
            self.of(piece),
        ensures
            b == must_cut(piece, *t),
    {
        match &t.kind {
            TransformKind::Join { .. } => self.filter || self.aggregate || self.sort || self.take,
            TransformKind::Aggregate { .. } => self.aggregate || self.sort || self.take,
            TransformKind::Sort(_) => self.take,
            TransformKind::Filter(_) => self.take || t.is_complex,
            _ => false,
        }
    }
}

/// Cuts a pipeline into its pieces.
pub fn split_pipeline(pipeline: Vec<Transform>) -> (r: Vec<AtomicTable>)
    ensures
        pipelines(r@) == pieces(pipeline@),
        unnamed(r@),
{
    let ghost all = pipeline@;
    let mut done: Vec<AtomicTable> = Vec::new();
    let mut current: Vec<Transform> = Vec::new();
    let mut seen = Seen::none();
    proof {
        assert(pipelines(done@) =~= seq![]);
        assert(all.take(0) =~= seq![]);
        assert(current@ =~= seq![]);
    }
    for t in it: pipeline
        invariant
            it.seq() == all,
            seen.of(current@),
            unnamed(done@),
            it.index() == 0 ==> current@.len() == 0 && pipelines(done@).len() == 0,
            it.index() > 0 ==> current@.len() > 0 && pieces(all.take(it.index() as int))
                == pipelines(done@).push(current@),
    {
        let ghost n = it.index() as int;
        proof {
            assert(all.take(n + 1).drop_last() =~= all.take(n));
            assert(all.take(n + 1).last() == t);
            assert(pipelines(done@).push(current@).drop_last() =~= pipelines(done@));
        }
        let ghost piece = current@;
        if current.len() > 0 && seen.cuts(&t, Ghost(current@)) {
            let ghost before = pipelines(done@).push(current@);
            done.push(AtomicTable::from(current));
            proof {
                assert(pipelines(done@) =~= before);
            }
            current = Vec::new();
            seen = Seen::none();
            proof {
                assert(current@ =~= seq![]);
            }
        }
        seen = seen.add(&t, Ghost(current@));
        current.push(t);
        proof {
            if n == 0 || must_cut(piece, t) {
                assert(current@ =~= seq![t]);
                assert(pieces(all.take(n + 1)) =~= pieces(all.take(n)).push(seq![t]));
            } else {
                assert(current@ =~= piece.push(t));
            }
        }
    }
    if current.len() > 0 {
        let ghost before = pipelines(done@).push(current@);
        done.push(AtomicTable::from(current));
        proof {
            assert(pipelines(done@) =~= before);
            assert(all.take(all.len() as int) =~= all);
        }
    }
    done
}

// ---------------------------------------------------------------------------
// Laws of cutting
// ---------------------------------------------------------------------------

/// Pipelines, one after the other.
pub open spec fn joined(parts: Seq<Seq<Transform>>) -> Seq<Transform>
    decreases parts.len(),
{
    if parts.len() == 0 {
        seq![]
    } else {
        joined(parts.drop_last()) + parts.last()
    }
}

/// A transform can come after another one in the same `SELECT`.
pub open spec fn can_follow(earlier: Transform, later: Transform) -> bool {
    match later.kind {
        TransformKind::Join { .. } => !(earlier.kind is Filter || earlier.kind is Aggregate
            || earlier.kind is Sort || earlier.kind is Take),
        TransformKind::Aggregate { .. } => !(earlier.kind is Aggregate || earlier.kind is Sort
            || earlier.kind is Take),
        TransformKind::Sort(_) => !(earlier.kind is Take),
        TransformKind::Filter(_) => !(earlier.kind is Take || later.is_complex),
        _ => true,
    }
}

/// A pipeline fits into one `SELECT`.
pub open spec fn fits(piece: Seq<Transform>) -> bool {
    forall|i: int, j: int|
        0 <= i < j < piece.len() ==> can_follow(#[trigger] piece[i], #[trigger] piece[j])
}

/// A transform has to be cut off exactly when the longer piece would not fit.
proof fn lemma_cut(piece: Seq<Transform>, t: Transform)
    requires
        piece.len() > 0,
    ensures
        must_cut(piece, t) <==> exists|i: int|
            0 <= i < piece.len() && !can_follow(#[trigger] piece[i], t),
{
    if must_cut(piece, t) {
        let i = if t.kind is Filter && t.is_complex {
            0
        } else if takes(piece) {
            choose|i: int| 0 <= i < piece.len() && (#[trigger] piece[i]).kind is Take
        } else if sorts(piece) {
            choose|i: int| 0 <= i < piece.len() && (#[trigger] piece[i]).kind is Sort
        } else if aggregates(piece) {
            choose|i: int| 0 <= i < piece.len() && (#[trigger] piece[i]).kind is Aggregate
        } else {
            choose|i: int| 0 <= i < piece.len() && (#[trigger] piece[i]).kind is Filter
        };
        assert(!can_follow(piece[i], t));
    }
}

/// A piece with one more transform fits if the piece does and the transform is not cut off.
proof fn lemma_fits_push(piece: Seq<Transform>, t: Transform)
    requires
        piece.len() > 0,
    ensures
        fits(piece.push(t)) <==> fits(piece) && !must_cut(piece, t),
{
    let longer = piece.push(t);
    lemma_cut(piece, t);
    if fits(longer) {
        assert forall|i: int, j: int| 0 <= i < j < piece.len() implies can_follow(
            #[trigger] piece[i],
            #[trigger] piece[j],
        ) by {
            assert(can_follow(longer[i], longer[j]));
        }
        assert forall|i: int| 0 <= i < piece.len() implies can_follow(#[trigger] piece[i], t) by {
            assert(can_follow(longer[i], longer[piece.len() as int]));
        }
    }
    if fits(piece) && !must_cut(piece, t) {
        assert forall|i: int, j: int| 0 <= i < j < longer.len() implies can_follow(
            #[trigger] longer[i],
            #[trigger] longer[j],
        ) by {
            assert(longer[i] == piece[i]);
            if j < piece.len() {
                assert(longer[j] == piece[j]);
            }
        }
    }
}

/// Cutting neither loses a transform nor changes their order, and leaves no empty piece.
pub proof fn law_pieces_make_up_the_pipeline(pipeline: Seq<Transform>)
    ensures
        joined(pieces(pipeline)) == pipeline,
        forall|k: int|
            0 <= k < pieces(pipeline).len() ==> (#[trigger] pieces(pipeline)[k]).len() > 0,
        pieces(pipeline).len() == 0 <==> pipeline.len() == 0,
    decreases pipeline.len(),
{
    if pipeline.len() > 0 {
        let shorter = pipeline.drop_last();
        let before = pieces(shorter);
        let t = pipeline.last();
        law_pieces_make_up_the_pipeline(shorter);
        if before.len() == 0 || must_cut(before.last(), t) {
            assert(pieces(pipeline).drop_last() =~= before);
        } else {
            assert(pieces(pipeline).drop_last() =~= before.drop_last());
            assert(joined(before) == joined(before.drop_last()) + before.last());
        }
        assert(shorter.push(t) =~= pipeline);
        assert(joined(pieces(pipeline)) =~= pipeline);
    }
}

/// Every piece fits into one `SELECT`.
pub proof fn law_every_piece_fits(pipeline: Seq<Transform>, k: int)
    requires
        0 <= k < pieces(pipeline).len(),
    ensures
        fits(pieces(pipeline)[k]),
    decreases pipeline.len(),
{
    let shorter = pipeline.drop_last();
    let before = pieces(shorter);
    let t = pipeline.last();
    law_pieces_make_up_the_pipeline(shorter);
    if k < before.len() {
        law_every_piece_fits(shorter, k);
    }
    if before.len() > 0 && !must_cut(before.last(), t) && k == before.len() - 1 {
        assert(before[k].len() > 0);
        lemma_fits_push(before[k], t);
    }
}

/// Within a piece, joins come before filters, the aggregation, the order and the ranges; there
/// is at most one aggregation, and it comes before the order; and nothing but ranges, among
/// these, comes after a range.
pub proof fn law_order_within_a_piece(pipeline: Seq<Transform>, k: int, i: int, j: int)
    requires
        0 <= k < pieces(pipeline).len(),
        0 <= i < j < pieces(pipeline)[k].len(),
    ensures
        ({
            let earlier = pieces(pipeline)[k][i].kind;
            let later = pieces(pipeline)[k][j].kind;
            &&& later is Join ==> !(earlier is Filter || earlier is Aggregate || earlier is Sort
                || earlier is Take)
            &&& later is Aggregate ==> !(earlier is Aggregate || earlier is Sort)
            &&& earlier is Take ==> !(later is Join || later is Filter || later is Aggregate
                || later is Sort)
        }),
{
    law_every_piece_fits(pipeline, k);
    assert(can_follow(pieces(pipeline)[k][i], pieces(pipeline)[k][j]));
}

/// A pipeline is cut only where it has to be: no piece fits together with the transform that
/// comes after it.
pub proof fn law_every_cut_is_needed(pipeline: Seq<Transform>, k: int)
    requires
        0 <= k < pieces(pipeline).len() - 1,
    ensures
        !fits(pieces(pipeline)[k].push(pieces(pipeline)[k + 1][0])),
    decreases pipeline.len(),
{
    let shorter = pipeline.drop_last();
    let before = pieces(shorter);
    let t = pipeline.last();
    law_pieces_make_up_the_pipeline(shorter);
    if k < before.len() - 1 {
        law_every_cut_is_needed(shorter, k);
        if k + 1 == before.len() - 1 && !must_cut(before.last(), t) {
            assert(before[k + 1].len() > 0);
            assert(pieces(pipeline)[k + 1] == before[k + 1].push(t));
        }
    } else {
        assert(before[k].len() > 0);
        lemma_fits_push(before[k], t);
    }
}

/// The last part is what the parts end with.
proof fn lemma_last_part(parts: Seq<Seq<Transform>>)
    requires
        parts.len() > 0,
    ensures
        parts.last().len() <= joined(parts).len(),
        parts.last() == joined(parts).skip(joined(parts).len() - parts.last().len()),
{
    assert(parts.last() =~= joined(parts).skip(joined(parts).len() - parts.last().len()));
}

/// No way of cutting a pipeline into parts that fit takes fewer parts; and where it takes as
/// many, its last part is no shorter.
proof fn lemma_fewest_pieces(parts: Seq<Seq<Transform>>)
    requires
        forall|k: int| 0 <= k < parts.len() ==> fits(#[trigger] parts[k]),
    ensures
        pieces(joined(parts)).len() <= parts.len(),
        pieces(joined(parts)).len() == parts.len() && joined(parts).len() > 0 ==> pieces(
            joined(parts),
        ).last().len() <= parts.last().len(),
    decreases parts.len(), joined(parts).len(),
{
    let whole = joined(parts);
    if parts.len() == 0 {
    } else if parts.last().len() == 0 {
        let fewer = parts.drop_last();
        assert forall|k: int| 0 <= k < fewer.len() implies fits(#[trigger] fewer[k]) by {
            assert(fewer[k] == parts[k]);
        }
        assert(joined(fewer) =~= whole);
        lemma_fewest_pieces(fewer);
    } else {
        let last = parts.last();
        let t = last.last();
        let rest = last.drop_last();
        let shorter = parts.drop_last().push(rest);
        assert(shorter.drop_last() =~= parts.drop_last());
        assert(joined(shorter) =~= whole.drop_last());
        assert(whole.last() == t);
        assert(rest.push(t) =~= last);
        assert(fits(parts[parts.len() - 1]));
        assert forall|k: int| 0 <= k < shorter.len() implies fits(#[trigger] shorter[k]) by {
            if k < parts.len() - 1 {
                assert(shorter[k] == parts[k]);
            } else {
                assert forall|i: int, j: int| 0 <= i < j < rest.len() implies can_follow(
                    #[trigger] rest[i],
                    #[trigger] rest[j],
                ) by {
                    assert(can_follow(last[i], last[j]));
                }
            }
        }
        lemma_fewest_pieces(shorter);
        let before = pieces(whole.drop_last());
        law_pieces_make_up_the_pipeline(whole.drop_last());
        if before.len() == parts.len() && before.len() > 0 && must_cut(before.last(), t) {
            assert(whole.drop_last().len() > 0);
            let tail = before.last();
            assert(before[before.len() - 1].len() > 0);
            lemma_last_part(before);
            lemma_last_part(shorter);
            lemma_cut(tail, t);
            let i = choose|i: int| 0 <= i < tail.len() && !can_follow(#[trigger] tail[i], t);
            let at = rest.len() - tail.len() + i;
            assert(rest[at] == tail[i]);
            assert(can_follow(last[at], last[last.len() - 1]));
            assert(false);
        }
    }
}

/// No way of cutting a pipeline into parts that each fit into one `SELECT` takes fewer parts.
pub proof fn law_fewest_pieces(pipeline: Seq<Transform>, parts: Seq<Seq<Transform>>)
    requires
        joined(parts) == pipeline,
        forall|k: int| 0 <= k < parts.len() ==> fits(#[trigger] parts[k]),
    ensures
        pieces(pipeline).len() <= parts.len(),
{
    lemma_fewest_pieces(parts);
}

// ---------------------------------------------------------------------------
// Preparing and cutting
// ---------------------------------------------------------------------------

/// What comes of a pipeline when its groups are unfolded and the takes in them that amount to
/// distinct rows are replaced. Both are passes that the caller provides.
pub open spec fn prepared<G, D>(
    un_group: G,
    take_to_distinct: D,
    pipeline: Vec<Transform>,
    context: MaterializationContext,
    r: Result<(Vec<Transform>, MaterializationContext), Error>,
) -> bool where
    G: Fn(Vec<Transform>) -> Result<Vec<Transform>, Error>,
    D: Fn(Vec<Transform>, MaterializationContext) -> Result<
        (Vec<Transform>, MaterializationContext),
        Error,
    >,
 {
    exists|ungrouped: Result<Vec<Transform>, Error>| #[trigger]
        call_ensures(un_group, (pipeline,), ungrouped) && match ungrouped {
            Ok(p) => call_ensures(take_to_distinct, (p, context), r),
            Err(e) => r == Err::<(Vec<Transform>, MaterializationContext), Error>(e),
        }
}

/// The passes can be called on a pipeline: the second on whatever the first may leave.
pub open spec fn can_prepare<G, D>(
    un_group: G,
    take_to_distinct: D,
    pipeline: Vec<Transform>,
    context: MaterializationContext,
) -> bool where
    G: Fn(Vec<Transform>) -> Result<Vec<Transform>, Error>,
    D: Fn(Vec<Transform>, MaterializationContext) -> Result<
        (Vec<Transform>, MaterializationContext),
        Error,
    >,
 {
    &&& call_requires(un_group, (pipeline,))
    &&& forall|p: Vec<Transform>| #[trigger]
        call_ensures(un_group, (pipeline,), Ok::<Vec<Transform>, Error>(p)) ==> call_requires(
            take_to_distinct,
            (p, context),
        )
}

fn prepare<G, D>(
    un_group: &G,
    take_to_distinct: &D,
    pipeline: Vec<Transform>,
    context: MaterializationContext,
) -> (r: Result<(Vec<Transform>, MaterializationContext), Error>) where
    G: Fn(Vec<Transform>) -> Result<Vec<Transform>, Error>,
    D: Fn(Vec<Transform>, MaterializationContext) -> Result<
        (Vec<Transform>, MaterializationContext),
        Error,
    >,

    requires
        can_prepare(*un_group, *take_to_distinct, pipeline, context),
    ensures
        prepared(*un_group, *take_to_distinct, pipeline, context, r),
{
    match un_group(pipeline) {
        Ok(p) => take_to_distinct(p, context),
        Err(e) => Err(e),
    }
}

/// The tables are the pieces of a prepared pipeline.
pub open spec fn cut_into<G, D>(
    un_group: G,
    take_to_distinct: D,
    pipeline: Vec<Transform>,
    context: MaterializationContext,
    tables: Seq<AtomicTable>,
    after: MaterializationContext,
) -> bool where
    G: Fn(Vec<Transform>) -> Result<Vec<Transform>, Error>,
    D: Fn(Vec<Transform>, MaterializationContext) -> Result<
        (Vec<Transform>, MaterializationContext),
        Error,
    >,
 {
    &&& unnamed(tables)
    &&& exists|p: Vec<Transform>| #[trigger]
        prepared(un_group, take_to_distinct, pipeline, context, Ok((p, after))) && pipelines(tables)
            == pieces(p@)
}

/// Converts a pipeline into a number of pipelines which can each fit into a `SELECT`.
pub fn atomic_pipelines_of_pipeline<G, D>(
    pipeline: Vec<Transform>,
    context: MaterializationContext,
    un_group: &G,
    take_to_distinct: &D,
) -> (r: Result<(Vec<AtomicTable>, MaterializationContext), Error>) where
    G: Fn(Vec<Transform>) -> Result<Vec<Transform>, Error>,
    D: Fn(Vec<Transform>, MaterializationContext) -> Result<
        (Vec<Transform>, MaterializationContext),
        Error,
    >,

    requires
        can_prepare(*un_group, *take_to_distinct, pipeline, context),
    ensures
        match r {
            Ok((tables, after)) => cut_into(
                *un_group,
                *take_to_distinct,
                pipeline,
                context,
                tables@,
                after,
            ),
            Err(e) => prepared(*un_group, *take_to_distinct, pipeline, context, Err(e)),
        },
{
    match prepare(un_group, take_to_distinct, pipeline, context) {
        Ok((p, c)) => {
            let tables = split_pipeline(p);
            proof {
                assert(prepared(*un_group, *take_to_distinct, pipeline, context, Ok((p, c))));
            }
            Ok((tables, c))
        },
        Err(e) => Err(e),
    }
}

// ---------------------------------------------------------------------------
// Tables
// ---------------------------------------------------------------------------

/// The tables of a query, with the main pipeline as the last table. It has no name.
pub fn into_tables(main_pipeline: Vec<Transform>, tables: Vec<Table>) -> (r: Result<
    Vec<Table>,
    Error,
>)
    ensures
        r is Ok,
        r->Ok_0@.drop_last() == tables@,
        r->Ok_0@.len() == tables@.len() + 1,
        r->Ok_0@.last().id is None,
        r->Ok_0@.last().name@ == Seq::<char>::empty(),
        r->Ok_0@.last().pipeline == main_pipeline,
{
    let main = Table { id: None, name: String::new(), pipeline: main_pipeline };
    let mut all = tables;
    all.push(main);
    proof {
        assert(all@.drop_last() =~= tables@);
    }
    Ok(all)
}

/// The transform that reads a table whose columns are those of a frame.
pub open spec fn from_transform(table: TableRef, frame: Rc<Frame>) -> Transform {
    Transform {
        kind: TransformKind::From(
            TableRef {
                name: table.name,
                alias: table.alias,
                declared_at: table.declared_at,
                ty: Some(Ty::Table(frame)),
            },
        ),
        is_complex: false,
        ty: frame,
        span: None,
    }
}

/// A pipeline that starts by reading a table, if there is one to read.
pub open spec fn reading(table: Option<(TableRef, Rc<Frame>)>, pipeline: Seq<Transform>) -> Seq<
    Transform,
> {
    match table {
        Some((table, frame)) => seq![from_transform(table, frame)] + pipeline,
        None => pipeline,
    }
}

/// Lets a pipeline start by reading a table, if there is one to read.
pub fn try_prepend_with_from(pipeline: &mut Vec<Transform>, table: Option<(TableRef, Rc<Frame>)>)
    ensures
        final(pipeline)@ == reading(table, old(pipeline)@),
{
    if let Some((table_ref, frame)) = table {
        let mut table_ref = table_ref;
        table_ref.ty = Some(Ty::Table(frame.clone()));
        let transform = Transform {
            ty: frame,
            kind: TransformKind::From(table_ref),
            is_complex: false,
            span: None,
        };
        pipeline.insert(0, transform);
        proof {
            assert(pipeline@ =~= reading(table, old(pipeline)@));
        }
    }
}

/// What a later pipeline reads of a table: its name, and the frame that it ends with.
pub open spec fn source(table: AtomicTable) -> Option<(TableRef, Rc<Frame>)> {
    if table.name is Some && table.pipeline@.len() > 0 {
        Some((table.name->0, table.pipeline@.last().ty))
    } else {
        None
    }
}

/// The name that is generated for a table.
pub open spec fn generated_name(index: int) -> Seq<char> {
    "table_"@ + nat_text(index as nat)
}

/// A table is a piece that starts by reading the table before it, if there is one.
pub open spec fn reads_on(tables: Seq<AtomicTable>, pieces: Seq<Seq<Transform>>, k: int) -> bool {
    tables[k].pipeline@ == reading(
        if k == 0 {
            None
        } else {
            source(tables[k - 1])
        },
        pieces[k],
    )
}

/// Each of the tables starts by reading the one before it.
pub open spec fn chained(tables: Seq<AtomicTable>, pieces: Seq<Seq<Transform>>) -> bool {
    &&& tables.len() == pieces.len()
    &&& forall|k: int| 0 <= k < tables.len() ==> #[trigger] reads_on(tables, pieces, k)
}

/// A table has a generated name and is declared under an identifier.
pub open spec fn generated(table: AtomicTable, index: int, id: int) -> bool {
    &&& table.name matches Some(t)
    &&& t.name@ == generated_name(index)
    &&& t.alias is None
    &&& t.declared_at matches Some(at) && at == id
    &&& t.ty is None
}

/// Generated names are declared.
pub open spec fn declared(
    before: Seq<Declaration>,
    after: Seq<Declaration>,
    index: int,
    count: int,
) -> bool {
    &&& after.len() == before.len() + count
    &&& after.take(before.len() as int) == before
    &&& forall|k: int|
        0 <= k < count ==> (#[trigger] after[before.len() + k] matches Declaration::Table(name)
            && name@ == generated_name(index + k))
}

/// The pieces of a table, named: the last has the name of the table, and the others have
/// generated names, which are declared.
pub open spec fn named(
    tables: Seq<AtomicTable>,
    pieces: Seq<Seq<Transform>>,
    name: String,
    id: Option<usize>,
    index: int,
    before: Seq<Declaration>,
    after: Seq<Declaration>,
) -> bool {
    &&& tables.len() > 0
    &&& chained(tables, pieces)
    &&& forall|k: int|
        0 <= k < tables.len() - 1 ==> generated(#[trigger] tables[k], index + k, before.len() + k)
    &&& tables.last().name == Some(TableRef { name, alias: None, declared_at: id, ty: None })
    &&& declared(before, after, index, tables.len() - 1)
}

fn generate_name(index: usize) -> (r: String)
    ensures
        r@ == generated_name(index as int),
{
    let mut name = "table_".to_string();
    push_nat(&mut name, index as u64);
    name
}

fn exec_source(table: &AtomicTable) -> (r: Option<(TableRef, Rc<Frame>)>)
    ensures
        r == source(*table),
{
    match &table.name {
        Some(name) => if table.pipeline.len() > 0 {
            Some((name.clone(), table.pipeline[table.pipeline.len() - 1].ty.clone()))
        } else {
            None
        },
        None => None,
    }
}

/// The next number for a name. There is one, as there are at least as many tables as numbers
/// with this one.
fn next_index(index: usize, atomics: &Vec<AtomicTable>) -> (r: usize)
    requires
        index < atomics@.len(),
    ensures
        r == index + 1,
{
    let count: usize = atomics.len();
    proof {
        assert(index < count);
    }
    index + 1
}

/// Names the pieces of a table and lets each start by reading the one before it. The named
/// pieces are added to `atomics`. There have to be at least as many of them as generated names.
pub fn name_pieces(
    atomics: &mut Vec<AtomicTable>,
    index: &mut usize,
    context: &mut MaterializationContext,
    pieces: Vec<AtomicTable>,
    name: String,
    id: Option<usize>,
) -> (r: Result<(), Error>)
    requires
        *old(index) <= old(atomics)@.len(),
    ensures
        r is Ok <==> pieces@.len() > 0,
        r matches Err(e) ==> e == Error::NoPipelines,
        r is Ok ==> {
            let start = old(atomics)@.len();
            &&& final(atomics)@.len() == start + pieces@.len()
            &&& final(atomics)@.take(start as int) == old(atomics)@
            &&& named(
                final(atomics)@.skip(start as int),
                pipelines(pieces@),
                name,
                id,
                *old(index) as int,
                old(context).declarations@,
                final(context).declarations@,
            )
            &&& forall|k: int|
                0 <= k < pieces@.len() ==> (#[trigger] final(atomics)@[start + k]).frame
                    == pieces@[k].frame
            &&& *final(index) == *old(index) + pieces@.len() - 1
            &&& *final(index) <= final(atomics)@.len()
        },
        r is Err ==> *final(index) == *old(index) && final(atomics)@ == old(atomics)@
            && final(context).declarations@ == old(context).declarations@,
{
    let ghost start = atomics@.len() as int;
    let ghost first = *index as int;
    let ghost before = context.declarations@;
    let ghost all = pieces@;
    let ghost parts = pipelines(pieces@);
    let mut ctes = pieces;
    let mut last = match ctes.pop() {
        Some(t) => t,
        None => {
            return Err(Error::NoPipelines);
        },
    };
    let mut prev_table_ref: Option<(TableRef, Rc<Frame>)> = None;
    proof {
        assert(atomics@.take(start) =~= atomics@);
        assert(before.take(before.len() as int) =~= before);
    }
    for cte in it: ctes
        invariant
            it.seq() == all.drop_last(),
            all.len() > 0,
            parts == pipelines(all),
            start == old(atomics)@.len(),
            first == *old(index),
            before == old(context).declarations@,
            *index == first + it.index(),
            *index <= atomics@.len(),
            atomics@.len() == start + it.index(),
            atomics@.take(start) == old(atomics)@,
            prev_table_ref == if it.index() == 0 {
                None
            } else {
                source(atomics@[start + it.index() - 1])
            },
            forall|k: int|
                0 <= k < it.index() ==> {
                    &&& generated(#[trigger] atomics@[start + k], first + k, before.len() + k)
                    &&& atomics@[start + k].frame == all[k].frame
                },
            forall|k: int|
                0 <= k < it.index() ==> #[trigger] reads_on(atomics@.skip(start), parts, k),
            declared(before, context.declarations@, first, it.index() as int),
    {
        let ghost k = it.index() as int;
        let ghost earlier = atomics@;
        let ghost known = context.declarations@;
        let mut cte = cte;
        try_prepend_with_from(&mut cte.pipeline, prev_table_ref);
        let name = generate_name(*index);
        let id = context.declare_table(name.clone());
        cte.name = Some(TableRef { name, alias: None, declared_at: Some(id), ty: None });
        prev_table_ref = exec_source(&cte);
        atomics.push(cte);
        *index = next_index(*index, atomics);
        proof {
            assert(atomics@.take(start) =~= earlier.take(start));
            assert(context.declarations@.take(before.len() as int) =~= known.take(
                before.len() as int,
            ));
            assert forall|j: int| 0 <= j < k implies #[trigger] atomics@[start + j] == earlier[start
                + j] by {}
            assert forall|j: int| 0 <= j < k + 1 implies #[trigger] reads_on(
                atomics@.skip(start),
                parts,
                j,
            ) by {
                if j < k {
                    assert(reads_on(earlier.skip(start), parts, j));
                }
            }
        }
    }
    try_prepend_with_from(&mut last.pipeline, prev_table_ref);
    last.name = Some(TableRef { name, alias: None, declared_at: id, ty: None });
    let ghost earlier = atomics@;
    atomics.push(last);
    proof {
        let tables = atomics@.skip(start);
        assert(atomics@.take(start) =~= earlier.take(start));
        assert(forall|j: int| 0 <= j < all.len() - 1 ==> tables[j] == earlier[start + j]);
        assert forall|j: int| 0 <= j < tables.len() implies #[trigger] reads_on(
            tables,
            parts,
            j,
        ) by {
            if j < all.len() - 1 {
                assert(reads_on(earlier.skip(start), parts, j));
            }
        }
    }
    Ok(())
}

/// How far the cutting of tables has got: the number of pieces, the number of generated names,
/// and the declarations.
pub struct Stage {
    pub count: int,
    pub index: int,
    pub context: MaterializationContext,
}

/// Cutting a table leads from one stage to the next, and adds its named pieces.
pub open spec fn cut_table<G, D>(
    un_group: G,
    take_to_distinct: D,
    table: Table,
    a: Stage,
    b: Stage,
    atomics: Seq<AtomicTable>,
) -> bool where
    G: Fn(Vec<Transform>) -> Result<Vec<Transform>, Error>,
    D: Fn(Vec<Transform>, MaterializationContext) -> Result<
        (Vec<Transform>, MaterializationContext),
        Error,
    >,
 {
    &&& 0 <= a.count <= b.count <= atomics.len()
    &&& exists|ps: Seq<AtomicTable>, c: MaterializationContext|
        {
            &&& #[trigger] cut_into(un_group, take_to_distinct, table.pipeline, a.context, ps, c)
            &&& named(
                atomics.subrange(a.count, b.count),
                pipelines(ps),
                table.name,
                table.id,
                a.index,
                c.declarations@,
                b.context.declarations@,
            )
            &&& b.index == a.index + ps.len() - 1
        }
    &&& forall|i: int| a.count <= i < b.count ==> (#[trigger] atomics[i]).frame is None
}

/// Cutting a table fails: a pass fails, or no transform is left of the table.
pub open spec fn cut_fails<G, D>(
    un_group: G,
    take_to_distinct: D,
    table: Table,
    a: Stage,
    e: Error,
) -> bool where
    G: Fn(Vec<Transform>) -> Result<Vec<Transform>, Error>,
    D: Fn(Vec<Transform>, MaterializationContext) -> Result<
        (Vec<Transform>, MaterializationContext),
        Error,
    >,
 {
    ||| prepared(un_group, take_to_distinct, table.pipeline, a.context, Err(e))
    ||| e == Error::NoPipelines && exists|ps: Seq<AtomicTable>, c: MaterializationContext|
        #[trigger] cut_into(un_group, take_to_distinct, table.pipeline, a.context, ps, c)
            && ps.len() == 0
}

/// Tables are cut one after the other, from stage to stage.
pub open spec fn cut_tables<G, D>(
    un_group: G,
    take_to_distinct: D,
    tables: Seq<Table>,
    context: MaterializationContext,
    stages: Seq<Stage>,
    atomics: Seq<AtomicTable>,
) -> bool where
    G: Fn(Vec<Transform>) -> Result<Vec<Transform>, Error>,
    D: Fn(Vec<Transform>, MaterializationContext) -> Result<
        (Vec<Transform>, MaterializationContext),
        Error,
    >,
 {
    &&& stages.len() == tables.len() + 1
    &&& stages[0] == (Stage { count: 0, index: 0, context })
    &&& stages.last().count == atomics.len()
    &&& forall|k: int|
        0 <= k < tables.len() ==> cut_table(
            un_group,
            take_to_distinct,
            #[trigger] tables[k],
            stages[k],
            stages[k + 1],
            atomics,
        )
}

/// The passes can be called on each of the tables, with whatever declarations those before it
/// may leave.
pub open spec fn can_cut_tables<G, D>(
    un_group: G,
    take_to_distinct: D,
    tables: Seq<Table>,
    context: MaterializationContext,
) -> bool where
    G: Fn(Vec<Transform>) -> Result<Vec<Transform>, Error>,
    D: Fn(Vec<Transform>, MaterializationContext) -> Result<
        (Vec<Transform>, MaterializationContext),
        Error,
    >,
 {
    forall|n: int, stages: Seq<Stage>, atomics: Seq<AtomicTable>|
        0 <= n < tables.len() && #[trigger] cut_tables(
            un_group,
            take_to_distinct,
            tables.take(n),
            context,
            stages,
            atomics,
        ) ==> can_prepare(un_group, take_to_distinct, tables[n].pipeline, stages.last().context)
}

/// The tables are cut into these atomic tables, and these declarations come of it.
pub open spec fn atomized<G, D>(
    un_group: G,
    take_to_distinct: D,
    tables: Seq<Table>,
    context: MaterializationContext,
    atomics: Seq<AtomicTable>,
    after: MaterializationContext,
) -> bool where
    G: Fn(Vec<Transform>) -> Result<Vec<Transform>, Error>,
    D: Fn(Vec<Transform>, MaterializationContext) -> Result<
        (Vec<Transform>, MaterializationContext),
        Error,
    >,
 {
    exists|stages: Seq<Stage>| #[trigger]
        cut_tables(un_group, take_to_distinct, tables, context, stages, atomics)
            && stages.last().context == after
}

/// Some of the tables are cut, and the next one fails.
pub open spec fn atomizing_fails<G, D>(
    un_group: G,
    take_to_distinct: D,
    tables: Seq<Table>,
    context: MaterializationContext,
    e: Error,
) -> bool where
    G: Fn(Vec<Transform>) -> Result<Vec<Transform>, Error>,
    D: Fn(Vec<Transform>, MaterializationContext) -> Result<
        (Vec<Transform>, MaterializationContext),
        Error,
    >,
 {
    exists|n: int, stages: Seq<Stage>, atomics: Seq<AtomicTable>|
        0 <= n < tables.len() && #[trigger] cut_tables(
            un_group,
            take_to_distinct,
            tables.take(n),
            context,
            stages,
            atomics,
        ) && cut_fails(un_group, take_to_distinct, tables[n], stages.last(), e)
}

/// One more table.
proof fn lemma_cut_tables_push<G, D>(
    un_group: G,
    take_to_distinct: D,
    tables: Seq<Table>,
    context: MaterializationContext,
    stages: Seq<Stage>,
    atomics: Seq<AtomicTable>,
    table: Table,
    stage: Stage,
    longer: Seq<AtomicTable>,
) where
    G: Fn(Vec<Transform>) -> Result<Vec<Transform>, Error>,
    D: Fn(Vec<Transform>, MaterializationContext) -> Result<
        (Vec<Transform>, MaterializationContext),
        Error,
    >,

    requires
        cut_tables(un_group, take_to_distinct, tables, context, stages, atomics),
        longer.len() >= atomics.len(),
        longer.take(atomics.len() as int) == atomics,
        cut_table(un_group, take_to_distinct, table, stages.last(), stage, longer),
        stage.count == longer.len(),
    ensures
        cut_tables(
            un_group,
            take_to_distinct,
            tables.push(table),
            context,
            stages.push(stage),
            longer,
        ),
{
    let more_tables = tables.push(table);
    let more_stages = stages.push(stage);
    assert forall|k: int| 0 <= k < more_tables.len() implies cut_table(
        un_group,
        take_to_distinct,
        #[trigger] more_tables[k],
        more_stages[k],
        more_stages[k + 1],
        longer,
    ) by {
        if k < tables.len() {
            let a = stages[k];
            let b = stages[k + 1];
            assert(cut_table(un_group, take_to_distinct, tables[k], a, b, atomics));
            assert(longer.subrange(a.count, b.count) =~= atomics.subrange(a.count, b.count));
            assert forall|i: int| a.count <= i < b.count implies (
            #[trigger] longer[i]).frame is None by {
                assert(longer[i] == longer.take(atomics.len() as int)[i]);
            }
        }
    }
}

/// Converts a series of tables into a series of atomic tables. The pieces of a table come in
/// its place, each reading the one before it, and the last has the name of the table.
pub fn atomic_tables_of_tables<G, D>(
    tables: Vec<Table>,
    context: MaterializationContext,
    un_group: &G,
    take_to_distinct: &D,
) -> (r: Result<(Vec<AtomicTable>, MaterializationContext), Error>) where
    G: Fn(Vec<Transform>) -> Result<Vec<Transform>, Error>,
    D: Fn(Vec<Transform>, MaterializationContext) -> Result<
        (Vec<Transform>, MaterializationContext),
        Error,
    >,

    requires
        can_cut_tables(*un_group, *take_to_distinct, tables@, context),
    ensures
        match r {
            Ok((atomics, after)) => atomized(
                *un_group,
                *take_to_distinct,
                tables@,
                context,
                atomics@,
                after,
            ),
            Err(e) => atomizing_fails(*un_group, *take_to_distinct, tables@, context, e),
        },
{
    let ghost all = tables@;
    let mut current = context;
    let mut atomics: Vec<AtomicTable> = Vec::new();
    let mut index: usize = 0;
    let ghost mut stages = seq![Stage { count: 0, index: 0, context: current }];
    proof {
        assert(all.take(0) =~= seq![]);
    }
    for table in it: tables
        invariant
            it.seq() == all,
            all == tables@,
            index <= atomics@.len(),
            can_cut_tables(*un_group, *take_to_distinct, all, context),
            cut_tables(
                *un_group,
                *take_to_distinct,
                all.take(it.index() as int),
                context,
                stages,
                atomics@,
            ),
            stages.last() == (Stage {
                count: atomics@.len() as int,
                index: index as int,
                context: current,
            }),
    {
        let ghost n = it.index() as int;
        let ghost a = stages.last();
        let ghost earlier = atomics@;
        proof {
            assert(all.take(n + 1) =~= all.take(n).push(table));
        }
        match atomic_pipelines_of_pipeline(table.pipeline, current, un_group, take_to_distinct) {
            Ok((pieces, c)) => {
                let ghost ps = pieces@;
                let ghost cut = c;
                proof {
                    assert(cut_into(
                        *un_group,
                        *take_to_distinct,
                        table.pipeline,
                        a.context,
                        ps,
                        cut,
                    ));
                }
                current = c;
                match name_pieces(
                    &mut atomics,
                    &mut index,
                    &mut current,
                    pieces,
                    table.name,
                    table.id,
                ) {
                    Ok(_) => {
                        proof {
                            let b = Stage {
                                count: atomics@.len() as int,
                                index: index as int,
                                context: current,
                            };
                            assert(atomics@.subrange(a.count, b.count) =~= atomics@.skip(a.count));
                            assert forall|i: int| a.count <= i < b.count implies (
                            #[trigger] atomics@[i]).frame is None by {
                                assert(atomics@[earlier.len() + (i - a.count)].frame == ps[i
                                    - a.count].frame);
                            }
                            lemma_cut_tables_push(
                                *un_group,
                                *take_to_distinct,
                                all.take(n),
                                context,
                                stages,
                                earlier,
                                table,
                                b,
                                atomics@,
                            );
                            stages = stages.push(b);
                        }
                    },
                    Err(e) => {
                        proof {
                            assert(cut_fails(*un_group, *take_to_distinct, table, a, e));
                        }
                        return Err(e);
                    },
                }
            },
            Err(e) => {
                return Err(e);
            },
        }
    }
    proof {
        assert(all.take(all.len() as int) =~= all);
    }
    Ok((atomics, current))
}

// ---------------------------------------------------------------------------
// Laws of naming
// ---------------------------------------------------------------------------

/// Different numbers make different names.
proof fn lemma_generated_names_differ(i: int, j: int)
    requires
        0 <= i,
        0 <= j,
        i != j,
    ensures
        generated_name(i) != generated_name(j),
{
    let a = nat_text(i as nat);
    let b = nat_text(j as nat);
    if generated_name(i) == generated_name(j) {
        let len = "table_"@.len() as int;
        assert(generated_name(i).skip(len) =~= a);
        assert(generated_name(j).skip(len) =~= b);
        lemma_nat_text_injective(i as nat, j as nat);
    }
}

/// A table with a generated name is defined and read under that name, without quotation marks,
/// in every dialect.
pub proof fn law_generated_names_are_plain(index: int, h: DialectHandler)
    requires
        0 <= index,
    ensures
        ident_part(generated_name(index), h) == plain(generated_name(index)),
        ident_parts(generated_name(index), h) == seq![plain(generated_name(index))],
{
    let name = generated_name(index);
    reveal_strlit("table_");
    lemma_nat_text_digits(index as nat);
    assert forall|i: int| 0 <= i < name.len() implies !subsequent_forbidden(#[trigger] name[i]) by {
        if i >= "table_"@.len() {
            assert(name[i] == nat_text(index as nat)[i - "table_"@.len()]);
        }
    }
    assert(name[0] == 't');
    assert(!is_jinja(name));
    if name.contains('.') {
        let i = choose|i: int| 0 <= i < name.len() && name[i] == '.';
        assert(subsequent_forbidden(name[i]));
    }
    law_tables_are_read_by_their_names(name, h);
}

/// Each table adds at least one piece, and generates one name less than it has pieces.
proof fn lemma_stages<G, D>(
    un_group: G,
    take_to_distinct: D,
    tables: Seq<Table>,
    context: MaterializationContext,
    stages: Seq<Stage>,
    atomics: Seq<AtomicTable>,
    k: int,
    l: int,
) where
    G: Fn(Vec<Transform>) -> Result<Vec<Transform>, Error>,
    D: Fn(Vec<Transform>, MaterializationContext) -> Result<
        (Vec<Transform>, MaterializationContext),
        Error,
    >,

    requires
        cut_tables(un_group, take_to_distinct, tables, context, stages, atomics),
        0 <= k <= l < stages.len(),
    ensures
        k <= stages[k].count <= stages[l].count <= atomics.len(),
        k < l ==> stages[k].count < stages[l].count,
        0 <= stages[k].index <= stages[l].index,
        stages[l].index == stages[l].count - l,
    decreases l,
{
    if l > 0 {
        let m = if k < l {
            k
        } else {
            l - 1
        };
        lemma_stages(un_group, take_to_distinct, tables, context, stages, atomics, m, l - 1);
        assert(cut_table(
            un_group,
            take_to_distinct,
            tables[l - 1],
            stages[l - 1],
            stages[l],
            atomics,
        ));
    }
}

/// No two generated names are the same, whichever tables they were generated for. The names of
/// tables `k` and `l` are those of their pieces but the last.
pub proof fn law_generated_names_are_distinct<G, D>(
    un_group: G,
    take_to_distinct: D,
    tables: Seq<Table>,
    context: MaterializationContext,
    stages: Seq<Stage>,
    atomics: Seq<AtomicTable>,
    k: int,
    i: int,
    l: int,
    j: int,
) where
    G: Fn(Vec<Transform>) -> Result<Vec<Transform>, Error>,
    D: Fn(Vec<Transform>, MaterializationContext) -> Result<
        (Vec<Transform>, MaterializationContext),
        Error,
    >,

    requires
        cut_tables(un_group, take_to_distinct, tables, context, stages, atomics),
        0 <= k <= l < tables.len(),
        stages[k].count <= i < stages[k + 1].count - 1,
        stages[l].count <= j < stages[l + 1].count - 1,
        i != j,
    ensures
        atomics[i].name is Some,
        atomics[j].name is Some,
        atomics[i].name->0.name@ != atomics[j].name->0.name@,
{
    assert(cut_table(
        un_group,
        take_to_distinct,
        tables[k],
        stages[k],
        stages[k + 1],
        atomics,
    ));
    assert(cut_table(
        un_group,
        take_to_distinct,
        tables[l],
        stages[l],
        stages[l + 1],
        atomics,
    ));
    let first = atomics.subrange(stages[k].count, stages[k + 1].count);
    let second = atomics.subrange(stages[l].count, stages[l + 1].count);
    assert(first[i - stages[k].count] == atomics[i]);
    assert(second[j - stages[l].count] == atomics[j]);
    lemma_stages(un_group, take_to_distinct, tables, context, stages, atomics, k, k);
    if k < l {
        lemma_stages(un_group, take_to_distinct, tables, context, stages, atomics, k + 1, l);
    }
    lemma_generated_names_differ(
        stages[k].index + (i - stages[k].count),
        stages[l].index + (j - stages[l].count),
    );
}

/// Every piece of a table but the first starts by reading the piece before it, by its name, and
/// goes on with the transforms that were cut off.
pub proof fn law_pieces_read_on(tables: Seq<AtomicTable>, pipeline: Seq<Transform>, k: int)
    requires
        chained(tables, pieces(pipeline)),
        forall|i: int| 0 <= i < tables.len() ==> (#[trigger] tables[i]).name is Some,
        0 < k < tables.len(),
    ensures
        tables[k].pipeline@.len() > 0,
        tables[k].pipeline@[0].kind matches TransformKind::From(t) && t.name
            == tables[k - 1].name->0.name && t.declared_at == tables[k - 1].name->0.declared_at
            && t.ty == Some(Ty::Table(tables[k - 1].pipeline@.last().ty)),
        tables[k].pipeline@.skip(1) == pieces(pipeline)[k],
{
    law_pieces_make_up_the_pipeline(pipeline);
    assert(reads_on(tables, pieces(pipeline), k));
    assert(reads_on(tables, pieces(pipeline), k - 1));
    assert(pieces(pipeline)[k - 1].len() > 0);
    assert(tables[k - 1].name is Some);
    assert(tables[k - 1].pipeline@.len() > 0);
    assert(tables[k].pipeline@.skip(1) =~= pieces(pipeline)[k]);
}

/// Every piece up to a stage has a name.
proof fn lemma_pieces_are_named<G, D>(
    un_group: G,
    take_to_distinct: D,
    tables: Seq<Table>,
    context: MaterializationContext,
    stages: Seq<Stage>,
    atomics: Seq<AtomicTable>,
    k: int,
) where
    G: Fn(Vec<Transform>) -> Result<Vec<Transform>, Error>,
    D: Fn(Vec<Transform>, MaterializationContext) -> Result<
        (Vec<Transform>, MaterializationContext),
        Error,
    >,

    requires
        cut_tables(un_group, take_to_distinct, tables, context, stages, atomics),
        0 <= k < stages.len(),
    ensures
        k <= stages[k].count <= atomics.len(),
        forall|i: int| 0 <= i < stages[k].count ==> (#[trigger] atomics[i]).name is Some,
    decreases k,
{
    if k > 0 {
        lemma_pieces_are_named(
            un_group,
            take_to_distinct,
            tables,
            context,
            stages,
            atomics,
            k - 1,
        );
        let a = stages[k - 1];
        let b = stages[k];
        assert(cut_table(un_group, take_to_distinct, tables[k - 1], a, b, atomics));
        let added = atomics.subrange(a.count, b.count);
        assert forall|i: int| 0 <= i < b.count implies (#[trigger] atomics[i]).name is Some by {
            if i >= a.count {
                assert(added[i - a.count] == atomics[i]);
            }
        }
    }
}

/// Every table is cut into at least one piece, and every piece has a name.
pub proof fn law_pieces_are_named<G, D>(
    un_group: G,
    take_to_distinct: D,
    tables: Seq<Table>,
    context: MaterializationContext,
    atomics: Seq<AtomicTable>,
    after: MaterializationContext,
) where
    G: Fn(Vec<Transform>) -> Result<Vec<Transform>, Error>,
    D: Fn(Vec<Transform>, MaterializationContext) -> Result<
        (Vec<Transform>, MaterializationContext),
        Error,
    >,

    requires
        atomized(un_group, take_to_distinct, tables, context, atomics, after),
    ensures
        atomics.len() >= tables.len(),
        forall|i: int| 0 <= i < atomics.len() ==> (#[trigger] atomics[i]).name is Some,
{
    let stages = choose|stages: Seq<Stage>| #[trigger]
        cut_tables(un_group, take_to_distinct, tables, context, stages, atomics)
            && stages.last().context == after;
    lemma_pieces_are_named(
        un_group,
        take_to_distinct,
        tables,
        context,
        stages,
        atomics,
        tables.len() as int,
    );
}

/// A table goes on under its own name and identifier: they are those of its last piece.
pub proof fn law_tables_keep_their_names<G, D>(
    un_group: G,
    take_to_distinct: D,
    tables: Seq<Table>,
    context: MaterializationContext,
    stages: Seq<Stage>,
    atomics: Seq<AtomicTable>,
    k: int,
) where
    G: Fn(Vec<Transform>) -> Result<Vec<Transform>, Error>,
    D: Fn(Vec<Transform>, MaterializationContext) -> Result<
        (Vec<Transform>, MaterializationContext),
        Error,
    >,

    requires
        cut_tables(un_group, take_to_distinct, tables, context, stages, atomics),
        0 <= k < tables.len(),
    ensures
        0 <= stages[k].count < stages[k + 1].count <= atomics.len(),
        atomics[stages[k + 1].count - 1].name matches Some(t) && t.name == tables[k].name
            && t.declared_at == tables[k].id && t.alias is None,
{
    assert(cut_table(
        un_group,
        take_to_distinct,
        tables[k],
        stages[k],
        stages[k + 1],
        atomics,
    ));
    let added = atomics.subrange(stages[k].count, stages[k + 1].count);
    assert(added.last() == atomics[stages[k + 1].count - 1]);
}

/// The name of piece `i`, which is one of table `k`.
pub open spec fn piece_name(tables: Seq<Table>, stages: Seq<Stage>, k: int, i: int) -> Seq<char> {
    if i == stages[k + 1].count - 1 {
        tables[k].name@
    } else {
        generated_name(i - k)
    }
}

/// The pieces of the tables come in the order of the tables. The last piece of a table has the
/// name of the table, and all others are numbered from zero on over all tables.
pub proof fn law_names_in_order<G, D>(
    un_group: G,
    take_to_distinct: D,
    tables: Seq<Table>,
    context: MaterializationContext,
    stages: Seq<Stage>,
    atomics: Seq<AtomicTable>,
    k: int,
    i: int,
) where
    G: Fn(Vec<Transform>) -> Result<Vec<Transform>, Error>,
    D: Fn(Vec<Transform>, MaterializationContext) -> Result<
        (Vec<Transform>, MaterializationContext),
        Error,
    >,

    requires
        cut_tables(un_group, take_to_distinct, tables, context, stages, atomics),
        0 <= k < tables.len(),
        stages[k].count <= i < stages[k + 1].count,
    ensures
        0 <= i < atomics.len(),
        atomics[i].name matches Some(t) && t.name@ == piece_name(tables, stages, k, i),
{
    let a = stages[k];
    let b = stages[k + 1];
    lemma_stages(un_group, take_to_distinct, tables, context, stages, atomics, k, k);
    assert(cut_table(un_group, take_to_distinct, tables[k], a, b, atomics));
    let added = atomics.subrange(a.count, b.count);
    assert(added[i - a.count] == atomics[i]);
}

/// One more table leaves the pieces of the tables before it as they are, and adds at least one.
pub proof fn law_one_more_table<G, D>(
    un_group: G,
    take_to_distinct: D,
    tables: Seq<Table>,
    table: Table,
    context: MaterializationContext,
    atomics: Seq<AtomicTable>,
    after: MaterializationContext,
) where
    G: Fn(Vec<Transform>) -> Result<Vec<Transform>, Error>,
    D: Fn(Vec<Transform>, MaterializationContext) -> Result<
        (Vec<Transform>, MaterializationContext),
        Error,
    >,

    requires
        atomized(un_group, take_to_distinct, tables.push(table), context, atomics, after),
    ensures
        exists|earlier: Seq<AtomicTable>, before: MaterializationContext|
            {
                &&& #[trigger] atomized(
                    un_group,
                    take_to_distinct,
                    tables,
                    context,
                    earlier,
                    before,
                )
                &&& earlier.len() < atomics.len()
                &&& earlier == atomics.take(earlier.len() as int)
            },
{
    let all = tables.push(table);
    let stages = choose|stages: Seq<Stage>| #[trigger]
        cut_tables(un_group, take_to_distinct, all, context, stages, atomics)
            && stages.last().context == after;
    let n = tables.len() as int;
    lemma_stages(un_group, take_to_distinct, all, context, stages, atomics, n, n + 1);
    let earlier = atomics.take(stages[n].count);
    let fewer = stages.drop_last();
    assert forall|k: int| 0 <= k < tables.len() implies cut_table(
        un_group,
        take_to_distinct,
        #[trigger] tables[k],
        fewer[k],
        fewer[k + 1],
        earlier,
    ) by {
        let a = stages[k];
        let b = stages[k + 1];
        assert(all[k] == tables[k]);
        assert(cut_table(un_group, take_to_distinct, all[k], a, b, atomics));
        lemma_stages(un_group, take_to_distinct, all, context, stages, atomics, k + 1, n);
        assert(earlier.subrange(a.count, b.count) =~= atomics.subrange(a.count, b.count));
        assert forall|i: int| a.count <= i < b.count implies (
        #[trigger] earlier[i]).frame is None by {
            assert(atomics[i].frame is None);
        }
    }
    assert(cut_tables(un_group, take_to_distinct, tables, context, fewer, earlier));
    assert(atomized(
        un_group,
        take_to_distinct,
        tables,
        context,
        earlier,
        fewer.last().context,
    ));
}

/// Whatever the passes leave of a pipeline, it is no transform.
pub open spec fn always_empty<G, D>(
    un_group: G,
    take_to_distinct: D,
    pipeline: Vec<Transform>,
) -> bool where
    G: Fn(Vec<Transform>) -> Result<Vec<Transform>, Error>,
    D: Fn(Vec<Transform>, MaterializationContext) -> Result<
        (Vec<Transform>, MaterializationContext),
        Error,
    >,
 {
    forall|c: MaterializationContext, p: Vec<Transform>, after: MaterializationContext|
        #[trigger] prepared(un_group, take_to_distinct, pipeline, c, Ok((p, after))) ==> p@.len()
            == 0
}

/// A table of which no transform is left is refused, together with all others.
pub proof fn law_empty_tables_are_refused<G, D>(
    un_group: G,
    take_to_distinct: D,
    tables: Seq<Table>,
    context: MaterializationContext,
    atomics: Seq<AtomicTable>,
    after: MaterializationContext,
    k: int,
) where
    G: Fn(Vec<Transform>) -> Result<Vec<Transform>, Error>,
    D: Fn(Vec<Transform>, MaterializationContext) -> Result<
        (Vec<Transform>, MaterializationContext),
        Error,
    >,

    requires
        0 <= k < tables.len(),
        always_empty(un_group, take_to_distinct, tables[k].pipeline),
    ensures
        !atomized(un_group, take_to_distinct, tables, context, atomics, after),
{
    if atomized(un_group, take_to_distinct, tables, context, atomics, after) {
        let stages = choose|stages: Seq<Stage>| #[trigger]
            cut_tables(un_group, take_to_distinct, tables, context, stages, atomics)
                && stages.last().context == after;
        let a = stages[k];
        assert(cut_table(un_group, take_to_distinct, tables[k], a, stages[k + 1], atomics));
        let (ps, c) = choose|ps: Seq<AtomicTable>, c: MaterializationContext|
            {
                &&& #[trigger] cut_into(
                    un_group,
                    take_to_distinct,
                    tables[k].pipeline,
                    a.context,
                    ps,
                    c,
                )
                &&& named(
                    atomics.subrange(a.count, stages[k + 1].count),
                    pipelines(ps),
                    tables[k].name,
                    tables[k].id,
                    a.index,
                    c.declarations@,
                    stages[k + 1].context.declarations@,
                )
            };
        assert(pipelines(ps).len() > 0);
    }
}

// ---------------------------------------------------------------------------
// Cutting twice
// ---------------------------------------------------------------------------

// Of two texts, or two lists, that hold the same, it is not known that they are the same value.
// What comes of two calls is therefore compared by what it holds.

/// References to tables that differ at most in which of two equal texts they hold.
pub open spec fn refs_alike(a: TableRef, b: TableRef) -> bool {
    &&& a.name@ == b.name@
    &&& match (a.alias, b.alias) {
        (Some(x), Some(y)) => x@ == y@,
        (None, None) => true,
        _ => false,
    }
    &&& a.declared_at == b.declared_at
    &&& a.ty == b.ty
}

/// Transforms that differ at most in which of two equal texts they name a table by.
pub open spec fn transforms_alike(a: Transform, b: Transform) -> bool {
    &&& a.kind == b.kind || match (a.kind, b.kind) {
        (TransformKind::From(x), TransformKind::From(y)) => refs_alike(x, y),
        _ => false,
    }
    &&& a.is_complex == b.is_complex
    &&& a.ty == b.ty
    &&& a.span == b.span
}

/// Pipelines of transforms that are alike.
pub open spec fn pipelines_alike(a: Seq<Transform>, b: Seq<Transform>) -> bool {
    &&& a.len() == b.len()
    &&& forall|i: int|
        #![trigger a[i]]
        #![trigger b[i]]
        0 <= i < a.len() ==> transforms_alike(a[i], b[i])
}

/// Declarations that differ at most in which of two equal texts they name a table by.
pub open spec fn declarations_alike(a: Declaration, b: Declaration) -> bool {
    a == b || match (a, b) {
        (Declaration::Table(x), Declaration::Table(y)) => x@ == y@,
        _ => false,
    }
}

/// Contexts of declarations that are alike.
pub open spec fn contexts_alike(a: Seq<Declaration>, b: Seq<Declaration>) -> bool {
    &&& a.len() == b.len()
    &&& forall|i: int|
        #![trigger a[i]]
        #![trigger b[i]]
        0 <= i < a.len() ==> declarations_alike(a[i], b[i])
}

/// Atomic tables that are alike.
pub open spec fn atomics_alike(a: AtomicTable, b: AtomicTable) -> bool {
    &&& match (a.name, b.name) {
        (Some(x), Some(y)) => refs_alike(x, y),
        (None, None) => true,
        _ => false,
    }
    &&& pipelines_alike(a.pipeline@, b.pipeline@)
    &&& a.frame == b.frame
}

/// Lists of atomic tables that are alike.
pub open spec fn tables_alike(a: Seq<AtomicTable>, b: Seq<AtomicTable>) -> bool {
    &&& a.len() == b.len()
    &&& forall|i: int|
        #![trigger a[i]]
        #![trigger b[i]]
        0 <= i < a.len() ==> atomics_alike(a[i], b[i])
}

/// Results of the first pass that are alike.
pub open spec fn ungrouped_alike(
    a: Result<Vec<Transform>, Error>,
    b: Result<Vec<Transform>, Error>,
) -> bool {
    match (a, b) {
        (Ok(p), Ok(q)) => pipelines_alike(p@, q@),
        (Err(d), Err(e)) => d@ == e@,
        _ => false,
    }
}

/// Results of both passes that are alike.
pub open spec fn prepared_alike(
    a: Result<(Vec<Transform>, MaterializationContext), Error>,
    b: Result<(Vec<Transform>, MaterializationContext), Error>,
) -> bool {
    match (a, b) {
        (Ok((p, c)), Ok((q, d))) => pipelines_alike(p@, q@) && contexts_alike(
            c.declarations@,
            d.declarations@,
        ),
        (Err(d), Err(e)) => d@ == e@,
        _ => false,
    }
}

/// The passes have one outcome per argument. Of a text they look at nothing but its characters.
pub open spec fn one_outcome<G, D>(un_group: G, take_to_distinct: D) -> bool where
    G: Fn(Vec<Transform>) -> Result<Vec<Transform>, Error>,
    D: Fn(Vec<Transform>, MaterializationContext) -> Result<
        (Vec<Transform>, MaterializationContext),
        Error,
    >,
 {
    &&& forall|
        p: Vec<Transform>,
        a: Result<Vec<Transform>, Error>,
        b: Result<Vec<Transform>, Error>,
    |
        #[trigger] call_ensures(un_group, (p,), a) && #[trigger] call_ensures(un_group, (p,), b)
            ==> ungrouped_alike(a, b)
    &&& forall|
        p: Vec<Transform>,
        c: MaterializationContext,
        a: Result<(Vec<Transform>, MaterializationContext), Error>,
        q: Vec<Transform>,
        d: MaterializationContext,
        b: Result<(Vec<Transform>, MaterializationContext), Error>,
    |
        #[trigger] call_ensures(take_to_distinct, (p, c), a) && #[trigger] call_ensures(
            take_to_distinct,
            (q, d),
            b,
        ) && pipelines_alike(p@, q@) && contexts_alike(c.declarations@, d.declarations@)
            ==> prepared_alike(a, b)
}

/// Preparing a pipeline twice has the same outcome.
proof fn lemma_prepared_alike<G, D>(
    un_group: G,
    take_to_distinct: D,
    pipeline: Vec<Transform>,
    c: MaterializationContext,
    d: MaterializationContext,
    a: Result<(Vec<Transform>, MaterializationContext), Error>,
    b: Result<(Vec<Transform>, MaterializationContext), Error>,
) where
    G: Fn(Vec<Transform>) -> Result<Vec<Transform>, Error>,
    D: Fn(Vec<Transform>, MaterializationContext) -> Result<
        (Vec<Transform>, MaterializationContext),
        Error,
    >,

    requires
        one_outcome(un_group, take_to_distinct),
        contexts_alike(c.declarations@, d.declarations@),
        prepared(un_group, take_to_distinct, pipeline, c, a),
        prepared(un_group, take_to_distinct, pipeline, d, b),
    ensures
        prepared_alike(a, b),
{
    let first = choose|g: Result<Vec<Transform>, Error>| #[trigger]
        call_ensures(un_group, (pipeline,), g) && match g {
            Ok(p) => call_ensures(take_to_distinct, (p, c), a),
            Err(e) => a == Err::<(Vec<Transform>, MaterializationContext), Error>(e),
        };
    let second = choose|g: Result<Vec<Transform>, Error>| #[trigger]
        call_ensures(un_group, (pipeline,), g) && match g {
            Ok(p) => call_ensures(take_to_distinct, (p, d), b),
            Err(e) => b == Err::<(Vec<Transform>, MaterializationContext), Error>(e),
        };
    assert(ungrouped_alike(first, second));
}

/// Pieces that are alike are cut before transforms that are.
proof fn lemma_cut_alike(p: Seq<Transform>, q: Seq<Transform>, t: Transform, u: Transform)
    requires
        pipelines_alike(p, q),
        transforms_alike(t, u),
    ensures
        must_cut(p, t) == must_cut(q, u),
{
    assert(forall|i: int| 0 <= i < p.len() ==> transforms_alike(#[trigger] p[i], q[i]));
    assert(forall|i: int| 0 <= i < q.len() ==> transforms_alike(p[i], #[trigger] q[i]));
    assert(filters(p) == filters(q));
    assert(aggregates(p) == aggregates(q));
    assert(sorts(p) == sorts(q));
    assert(takes(p) == takes(q));
}

/// Pipelines that are alike are cut at the same places.
proof fn lemma_pieces_alike(p: Seq<Transform>, q: Seq<Transform>)
    requires
        pipelines_alike(p, q),
    ensures
        pieces(p).len() == pieces(q).len(),
        forall|k: int|
            0 <= k < pieces(p).len() ==> pipelines_alike(#[trigger] pieces(p)[k], pieces(q)[k]),
    decreases p.len(),
{
    if p.len() > 0 {
        let (x, y) = (p.drop_last(), q.drop_last());
        let (t, u) = (p.last(), q.last());
        assert(transforms_alike(p[p.len() - 1], q[p.len() - 1]));
        assert forall|i: int| 0 <= i < x.len() implies transforms_alike(
            #[trigger] x[i],
            #[trigger] y[i],
        ) by {
            assert(transforms_alike(p[i], q[i]));
        }
        lemma_pieces_alike(x, y);
        let n = pieces(x).len();
        if n > 0 {
            assert(pipelines_alike(pieces(x)[n - 1], pieces(y)[n - 1]));
            lemma_cut_alike(pieces(x).last(), pieces(y).last(), t, u);
        }
        assert forall|k: int| 0 <= k < pieces(p).len() implies pipelines_alike(
            #[trigger] pieces(p)[k],
            pieces(q)[k],
        ) by {
            if k < n {
                assert(pipelines_alike(pieces(x)[k], pieces(y)[k]));
            }
        }
    }
}

/// Pieces that are alike become tables that are alike.
proof fn lemma_named_alike(
    u: Seq<AtomicTable>,
    v: Seq<AtomicTable>,
    ps: Seq<Seq<Transform>>,
    qs: Seq<Seq<Transform>>,
    name: String,
    id: Option<usize>,
    index: int,
    c: Seq<Declaration>,
    d: Seq<Declaration>,
    after_c: Seq<Declaration>,
    after_d: Seq<Declaration>,
    k: int,
)
    requires
        named(u, ps, name, id, index, c, after_c),
        named(v, qs, name, id, index, d, after_d),
        ps.len() == qs.len(),
        forall|j: int| 0 <= j < ps.len() ==> pipelines_alike(#[trigger] ps[j], qs[j]),
        c.len() == d.len(),
        0 <= k < u.len(),
    ensures
        u[k].name is Some,
        v[k].name is Some,
        refs_alike(u[k].name->0, v[k].name->0),
        pipelines_alike(u[k].pipeline@, v[k].pipeline@),
    decreases k,
{
    assert(pipelines_alike(ps[k], qs[k]));
    assert(reads_on(u, ps, k));
    assert(reads_on(v, qs, k));
    if k < u.len() - 1 {
        assert(generated(u[k], index + k, c.len() + k));
        assert(generated(v[k], index + k, d.len() + k));
    }
    if k > 0 {
        lemma_named_alike(u, v, ps, qs, name, id, index, c, d, after_c, after_d, k - 1);
        let (a, b) = (u[k - 1].pipeline@, v[k - 1].pipeline@);
        if a.len() > 0 {
            assert(transforms_alike(a[a.len() - 1], b[a.len() - 1]));
        }
        let (x, y) = (u[k].pipeline@, v[k].pipeline@);
        assert forall|i: int| 0 <= i < x.len() implies transforms_alike(
            #[trigger] x[i],
            #[trigger] y[i],
        ) by {
            if a.len() == 0 {
                assert(transforms_alike(ps[k][i], qs[k][i]));
            } else if i > 0 {
                assert(transforms_alike(ps[k][i - 1], qs[k][i - 1]));
            }
        }
    }
}

/// Declaring the same names keeps contexts alike.
proof fn lemma_declared_alike(
    c: Seq<Declaration>,
    d: Seq<Declaration>,
    after_c: Seq<Declaration>,
    after_d: Seq<Declaration>,
    index: int,
    count: int,
)
    requires
        0 <= count,
        contexts_alike(c, d),
        declared(c, after_c, index, count),
        declared(d, after_d, index, count),
    ensures
        contexts_alike(after_c, after_d),
{
    assert forall|i: int| 0 <= i < after_c.len() implies declarations_alike(
        #[trigger] after_c[i],
        #[trigger] after_d[i],
    ) by {
        if i < c.len() {
            assert(after_c.take(c.len() as int)[i] == after_c[i]);
            assert(after_d.take(c.len() as int)[i] == after_d[i]);
            assert(declarations_alike(c[i], d[i]));
        } else {
            assert(after_c[c.len() + (i - c.len())] is Table);
            assert(after_d[d.len() + (i - d.len())] is Table);
        }
    }
}

/// Cutting a table twice, from stages that are alike, leads to stages that are alike and adds
/// the same pieces.
proof fn lemma_cut_table_alike<G, D>(
    un_group: G,
    take_to_distinct: D,
    table: Table,
    a: Stage,
    a2: Stage,
    u: Seq<AtomicTable>,
    b: Stage,
    b2: Stage,
    v: Seq<AtomicTable>,
) where
    G: Fn(Vec<Transform>) -> Result<Vec<Transform>, Error>,
    D: Fn(Vec<Transform>, MaterializationContext) -> Result<
        (Vec<Transform>, MaterializationContext),
        Error,
    >,

    requires
        one_outcome(un_group, take_to_distinct),
        cut_table(un_group, take_to_distinct, table, a, a2, u),
        cut_table(un_group, take_to_distinct, table, b, b2, v),
        a.count == b.count,
        a.index == b.index,
        contexts_alike(a.context.declarations@, b.context.declarations@),
    ensures
        a2.count == b2.count,
        a2.index == b2.index,
        contexts_alike(a2.context.declarations@, b2.context.declarations@),
        forall|i: int| a.count <= i < a2.count ==> atomics_alike(#[trigger] u[i], v[i]),
{
    let x = u.subrange(a.count, a2.count);
    let y = v.subrange(b.count, b2.count);
    let (ps, c) = choose|ps: Seq<AtomicTable>, c: MaterializationContext|
        {
            &&& #[trigger] cut_into(un_group, take_to_distinct, table.pipeline, a.context, ps, c)
            &&& named(
                x,
                pipelines(ps),
                table.name,
                table.id,
                a.index,
                c.declarations@,
                a2.context.declarations@,
            )
            &&& a2.index == a.index + ps.len() - 1
        };
    let (qs, d) = choose|qs: Seq<AtomicTable>, d: MaterializationContext|
        {
            &&& #[trigger] cut_into(un_group, take_to_distinct, table.pipeline, b.context, qs, d)
            &&& named(
                y,
                pipelines(qs),
                table.name,
                table.id,
                b.index,
                d.declarations@,
                b2.context.declarations@,
            )
            &&& b2.index == b.index + qs.len() - 1
        };
    lemma_cut_into_alike(
        un_group,
        take_to_distinct,
        table.pipeline,
        a.context,
        b.context,
        ps,
        c,
        qs,
        d,
    );
    lemma_declared_alike(
        c.declarations@,
        d.declarations@,
        a2.context.declarations@,
        b2.context.declarations@,
        a.index,
        ps.len() - 1,
    );
    assert forall|i: int| a.count <= i < a2.count implies atomics_alike(#[trigger] u[i], v[i]) by {
        let k = i - a.count;
        lemma_named_alike(
            x,
            y,
            pipelines(ps),
            pipelines(qs),
            table.name,
            table.id,
            a.index,
            c.declarations@,
            d.declarations@,
            a2.context.declarations@,
            b2.context.declarations@,
            k,
        );
        assert(x[k] == u[i]);
        assert(y[k] == v[i]);
        assert(v[i].frame is None);
    }
}

/// A pipeline that is prepared and cut twice is cut into pieces that are alike.
proof fn lemma_cut_into_alike<G, D>(
    un_group: G,
    take_to_distinct: D,
    pipeline: Vec<Transform>,
    a: MaterializationContext,
    b: MaterializationContext,
    ps: Seq<AtomicTable>,
    c: MaterializationContext,
    qs: Seq<AtomicTable>,
    d: MaterializationContext,
) where
    G: Fn(Vec<Transform>) -> Result<Vec<Transform>, Error>,
    D: Fn(Vec<Transform>, MaterializationContext) -> Result<
        (Vec<Transform>, MaterializationContext),
        Error,
    >,

    requires
        one_outcome(un_group, take_to_distinct),
        contexts_alike(a.declarations@, b.declarations@),
        cut_into(un_group, take_to_distinct, pipeline, a, ps, c),
        cut_into(un_group, take_to_distinct, pipeline, b, qs, d),
    ensures
        contexts_alike(c.declarations@, d.declarations@),
        ps.len() == qs.len(),
        forall|j: int|
            0 <= j < ps.len() ==> pipelines_alike(#[trigger] pipelines(ps)[j], pipelines(qs)[j]),
{
    let p = choose|p: Vec<Transform>| #[trigger]
        prepared(un_group, take_to_distinct, pipeline, a, Ok((p, c))) && pipelines(ps) == pieces(
            p@,
        );
    let q = choose|q: Vec<Transform>| #[trigger]
        prepared(un_group, take_to_distinct, pipeline, b, Ok((q, d))) && pipelines(qs) == pieces(
            q@,
        );
    lemma_prepared_alike(
        un_group,
        take_to_distinct,
        pipeline,
        a,
        b,
        Ok((p, c)),
        Ok((q, d)),
    );
    lemma_pieces_alike(p@, q@);
    assert(pipelines(ps).len() == pipelines(qs).len());
}

/// Two cuttings agree as long as their tables are the same.
proof fn lemma_cut_tables_alike<G, D>(
    un_group: G,
    take_to_distinct: D,
    context: MaterializationContext,
    ts: Seq<Table>,
    stages: Seq<Stage>,
    u: Seq<AtomicTable>,
    ss: Seq<Table>,
    others: Seq<Stage>,
    v: Seq<AtomicTable>,
    n: int,
) where
    G: Fn(Vec<Transform>) -> Result<Vec<Transform>, Error>,
    D: Fn(Vec<Transform>, MaterializationContext) -> Result<
        (Vec<Transform>, MaterializationContext),
        Error,
    >,

    requires
        one_outcome(un_group, take_to_distinct),
        cut_tables(un_group, take_to_distinct, ts, context, stages, u),
        cut_tables(un_group, take_to_distinct, ss, context, others, v),
        0 <= n <= ts.len(),
        n <= ss.len(),
        forall|k: int| 0 <= k < n ==> #[trigger] ts[k] == ss[k],
    ensures
        0 <= stages[n].count <= u.len(),
        stages[n].count == others[n].count,
        stages[n].index == others[n].index,
        contexts_alike(stages[n].context.declarations@, others[n].context.declarations@),
        forall|i: int| 0 <= i < stages[n].count ==> atomics_alike(#[trigger] u[i], v[i]),
    decreases n,
{
    lemma_stages(un_group, take_to_distinct, ts, context, stages, u, n, n);
    if n > 0 {
        lemma_cut_tables_alike(
            un_group,
            take_to_distinct,
            context,
            ts,
            stages,
            u,
            ss,
            others,
            v,
            n - 1,
        );
        assert(ts[n - 1] == ss[n - 1]);
        assert(cut_table(
            un_group,
            take_to_distinct,
            ts[n - 1],
            stages[n - 1],
            stages[n],
            u,
        ));
        assert(cut_table(
            un_group,
            take_to_distinct,
            ss[n - 1],
            others[n - 1],
            others[n],
            v,
        ));
        lemma_cut_table_alike(
            un_group,
            take_to_distinct,
            ts[n - 1],
            stages[n - 1],
            stages[n],
            u,
            others[n - 1],
            others[n],
            v,
        );
    }
}

/// If the passes have one outcome per argument and tables can be cut with one more table at the
/// end, then they can be cut without it. Whatever comes of that, it is what the longer list
/// begins with, and less than all of it.
pub proof fn law_one_more_table_only_appends<G, D>(
    un_group: G,
    take_to_distinct: D,
    tables: Seq<Table>,
    table: Table,
    context: MaterializationContext,
    atomics: Seq<AtomicTable>,
    after: MaterializationContext,
) where
    G: Fn(Vec<Transform>) -> Result<Vec<Transform>, Error>,
    D: Fn(Vec<Transform>, MaterializationContext) -> Result<
        (Vec<Transform>, MaterializationContext),
        Error,
    >,

    requires
        one_outcome(un_group, take_to_distinct),
        atomized(un_group, take_to_distinct, tables.push(table), context, atomics, after),
    ensures
        forall|earlier: Seq<AtomicTable>, before: MaterializationContext| #[trigger]
            atomized(un_group, take_to_distinct, tables, context, earlier, before)
                ==> earlier.len() < atomics.len() && tables_alike(
                earlier,
                atomics.take(earlier.len() as int),
            ),
        forall|e: Error|
            !#[trigger] atomizing_fails(un_group, take_to_distinct, tables, context, e),
{
    let all = tables.push(table);
    let others = choose|stages: Seq<Stage>| #[trigger]
        cut_tables(un_group, take_to_distinct, all, context, stages, atomics)
            && stages.last().context == after;
    let n = tables.len() as int;
    assert forall|earlier: Seq<AtomicTable>, before: MaterializationContext| #[trigger]
        atomized(
            un_group,
            take_to_distinct,
            tables,
            context,
            earlier,
            before,
        ) implies earlier.len() < atomics.len() && tables_alike(
        earlier,
        atomics.take(earlier.len() as int),
    ) by {
        let stages = choose|stages: Seq<Stage>| #[trigger]
            cut_tables(un_group, take_to_distinct, tables, context, stages, earlier)
                && stages.last().context == before;
        lemma_cut_tables_alike(
            un_group,
            take_to_distinct,
            context,
            tables,
            stages,
            earlier,
            all,
            others,
            atomics,
            n,
        );
        lemma_stages(un_group, take_to_distinct, all, context, others, atomics, n, n + 1);
        let start = atomics.take(earlier.len() as int);
        assert forall|i: int| 0 <= i < earlier.len() implies atomics_alike(
            #[trigger] earlier[i],
            #[trigger] start[i],
        ) by {
            assert(start[i] == atomics[i]);
        }
    }
    assert forall|e: Error|
        !#[trigger] atomizing_fails(un_group, take_to_distinct, tables, context, e) by {
        if atomizing_fails(un_group, take_to_distinct, tables, context, e) {
            lemma_cutting_does_not_fail(
                un_group,
                take_to_distinct,
                tables,
                context,
                all,
                others,
                atomics,
                e,
            );
        }
    }
}

/// Tables that were cut once are not refused another time.
proof fn lemma_cutting_does_not_fail<G, D>(
    un_group: G,
    take_to_distinct: D,
    tables: Seq<Table>,
    context: MaterializationContext,
    all: Seq<Table>,
    others: Seq<Stage>,
    atomics: Seq<AtomicTable>,
    e: Error,
) where
    G: Fn(Vec<Transform>) -> Result<Vec<Transform>, Error>,
    D: Fn(Vec<Transform>, MaterializationContext) -> Result<
        (Vec<Transform>, MaterializationContext),
        Error,
    >,

    requires
        one_outcome(un_group, take_to_distinct),
        tables.len() <= all.len(),
        forall|k: int| 0 <= k < tables.len() ==> #[trigger] tables[k] == all[k],
        cut_tables(un_group, take_to_distinct, all, context, others, atomics),
    ensures
        !atomizing_fails(un_group, take_to_distinct, tables, context, e),
{
    if atomizing_fails(un_group, take_to_distinct, tables, context, e) {
        let (n, stages, u) = choose|n: int, stages: Seq<Stage>, u: Seq<AtomicTable>|
            0 <= n < tables.len() && #[trigger] cut_tables(
                un_group,
                take_to_distinct,
                tables.take(n),
                context,
                stages,
                u,
            ) && cut_fails(un_group, take_to_distinct, tables[n], stages.last(), e);
        let fewer = tables.take(n);
        assert forall|k: int| 0 <= k < n implies #[trigger] fewer[k] == all[k] by {
            assert(tables[k] == all[k]);
        }
        lemma_cut_tables_alike(
            un_group,
            take_to_distinct,
            context,
            fewer,
            stages,
            u,
            all,
            others,
            atomics,
            n,
        );
        let a = stages[n];
        let b = others[n];
        let table = tables[n];
        assert(table == all[n]);
        assert(cut_table(un_group, take_to_distinct, all[n], b, others[n + 1], atomics));
        let (qs, d) = choose|qs: Seq<AtomicTable>, d: MaterializationContext|
            {
                &&& #[trigger] cut_into(
                    un_group,
                    take_to_distinct,
                    table.pipeline,
                    b.context,
                    qs,
                    d,
                )
                &&& named(
                    atomics.subrange(b.count, others[n + 1].count),
                    pipelines(qs),
                    table.name,
                    table.id,
                    b.index,
                    d.declarations@,
                    others[n + 1].context.declarations@,
                )
            };
        if prepared(un_group, take_to_distinct, table.pipeline, a.context, Err(e)) {
            let q = choose|q: Vec<Transform>| #[trigger]
                prepared(un_group, take_to_distinct, table.pipeline, b.context, Ok((q, d)))
                    && pipelines(qs) == pieces(q@);
            lemma_prepared_alike(
                un_group,
                take_to_distinct,
                table.pipeline,
                a.context,
                b.context,
                Err(e),
                Ok((q, d)),
            );
        } else {
            let (ps, c) = choose|ps: Seq<AtomicTable>, c: MaterializationContext|
                #[trigger] cut_into(
                    un_group,
                    take_to_distinct,
                    table.pipeline,
                    a.context,
                    ps,
                    c,
                ) && ps.len() == 0;
            lemma_cut_into_alike(
                un_group,
                take_to_distinct,
                table.pipeline,
                a.context,
                b.context,
                ps,
                c,
                qs,
                d,
            );
            assert(pipelines(qs).len() > 0);
        }
    }
}

// ---------------------------------------------------------------------------
// Laws of whole cuttings
// ---------------------------------------------------------------------------

/// A pipeline is prepared by one pass after the other: the first works on the pipeline, and the
/// second on what the first leaves, with the declarations that there are.
pub open spec fn passes_leave<G, D>(
    un_group: G,
    take_to_distinct: D,
    pipeline: Vec<Transform>,
    context: MaterializationContext,
    left: Vec<Transform>,
    after: MaterializationContext,
) -> bool where
    G: Fn(Vec<Transform>) -> Result<Vec<Transform>, Error>,
    D: Fn(Vec<Transform>, MaterializationContext) -> Result<
        (Vec<Transform>, MaterializationContext),
        Error,
    >,
 {
    exists|p: Vec<Transform>| #[trigger]
        call_ensures(un_group, (pipeline,), Ok::<Vec<Transform>, Error>(p)) && call_ensures(
            take_to_distinct,
            (p, context),
            Ok::<(Vec<Transform>, MaterializationContext), Error>((left, after)),
        )
}

/// A pipeline is not prepared if one of the passes fails.
pub open spec fn passes_fail<G, D>(
    un_group: G,
    take_to_distinct: D,
    pipeline: Vec<Transform>,
    context: MaterializationContext,
    e: Error,
) -> bool where
    G: Fn(Vec<Transform>) -> Result<Vec<Transform>, Error>,
    D: Fn(Vec<Transform>, MaterializationContext) -> Result<
        (Vec<Transform>, MaterializationContext),
        Error,
    >,
 {
    ||| call_ensures(un_group, (pipeline,), Err::<Vec<Transform>, Error>(e))
    ||| exists|p: Vec<Transform>| #[trigger]
        call_ensures(un_group, (pipeline,), Ok::<Vec<Transform>, Error>(p)) && call_ensures(
            take_to_distinct,
            (p, context),
            Err::<(Vec<Transform>, MaterializationContext), Error>(e),
        )
}

/// A pipeline is cut after both passes, and its pieces have neither a name nor a frame yet.
pub proof fn law_passes_run_in_turn<G, D>(
    un_group: G,
    take_to_distinct: D,
    pipeline: Vec<Transform>,
    context: MaterializationContext,
    tables: Seq<AtomicTable>,
    after: MaterializationContext,
) where
    G: Fn(Vec<Transform>) -> Result<Vec<Transform>, Error>,
    D: Fn(Vec<Transform>, MaterializationContext) -> Result<
        (Vec<Transform>, MaterializationContext),
        Error,
    >,

    requires
        cut_into(un_group, take_to_distinct, pipeline, context, tables, after),
    ensures
        exists|left: Vec<Transform>|
            {
                &&& #[trigger] passes_leave(
                    un_group,
                    take_to_distinct,
                    pipeline,
                    context,
                    left,
                    after,
                )
                &&& tables.len() == pieces(left@).len()
                &&& forall|i: int|
                    0 <= i < tables.len() ==> (#[trigger] tables[i]).pipeline@ == pieces(left@)[i]
                        && tables[i].name is None && tables[i].frame is None
            },
{
    let left = choose|p: Vec<Transform>| #[trigger]
        prepared(un_group, take_to_distinct, pipeline, context, Ok((p, after))) && pipelines(tables)
            == pieces(p@);
    assert(prepared(un_group, take_to_distinct, pipeline, context, Ok((left, after))));
    let r = choose|g: Result<Vec<Transform>, Error>| #[trigger]
        call_ensures(un_group, (pipeline,), g) && match g {
            Ok(p) => call_ensures(
                take_to_distinct,
                (p, context),
                Ok::<(Vec<Transform>, MaterializationContext), Error>((left, after)),
            ),
            Err(e) => Ok::<(Vec<Transform>, MaterializationContext), Error>((left, after)) == Err::<
                (Vec<Transform>, MaterializationContext),
                Error,
            >(e),
        };
    assert(call_ensures(un_group, (pipeline,), Ok::<Vec<Transform>, Error>(r->Ok_0)));
    assert(passes_leave(un_group, take_to_distinct, pipeline, context, left, after));
    assert(tables.len() == pipelines(tables).len());
    assert forall|i: int| 0 <= i < tables.len() implies (#[trigger] tables[i]).pipeline@ == pieces(
        left@,
    )[i] && tables[i].name is None && tables[i].frame is None by {
        assert(pipelines(tables)[i] == tables[i].pipeline@);
    }
}

/// Preparing fails exactly as one of the passes does.
proof fn lemma_passes_fail<G, D>(
    un_group: G,
    take_to_distinct: D,
    pipeline: Vec<Transform>,
    context: MaterializationContext,
    e: Error,
) where
    G: Fn(Vec<Transform>) -> Result<Vec<Transform>, Error>,
    D: Fn(Vec<Transform>, MaterializationContext) -> Result<
        (Vec<Transform>, MaterializationContext),
        Error,
    >,

    requires
        prepared(un_group, take_to_distinct, pipeline, context, Err(e)),
    ensures
        passes_fail(un_group, take_to_distinct, pipeline, context, e),
{
    let failed = Err::<(Vec<Transform>, MaterializationContext), Error>(e);
    let r = choose|g: Result<Vec<Transform>, Error>| #[trigger]
        call_ensures(un_group, (pipeline,), g) && match g {
            Ok(p) => call_ensures(take_to_distinct, (p, context), failed),
            Err(d) => failed == Err::<(Vec<Transform>, MaterializationContext), Error>(d),
        };
    if let Ok(p) = r {
        assert(call_ensures(un_group, (pipeline,), Ok::<Vec<Transform>, Error>(p)));
    } else {
        assert(call_ensures(un_group, (pipeline,), Err::<Vec<Transform>, Error>(e)));
    }
}

/// A table is refused only if one of the passes fails, or if they leave no transform of it.
pub proof fn law_refused_tables<G, D>(
    un_group: G,
    take_to_distinct: D,
    table: Table,
    stage: Stage,
    e: Error,
) where
    G: Fn(Vec<Transform>) -> Result<Vec<Transform>, Error>,
    D: Fn(Vec<Transform>, MaterializationContext) -> Result<
        (Vec<Transform>, MaterializationContext),
        Error,
    >,

    requires
        cut_fails(un_group, take_to_distinct, table, stage, e),
    ensures
        passes_fail(un_group, take_to_distinct, table.pipeline, stage.context, e) || {
            &&& e == Error::NoPipelines
            &&& exists|left: Vec<Transform>, after: MaterializationContext|
                #[trigger] passes_leave(
                    un_group,
                    take_to_distinct,
                    table.pipeline,
                    stage.context,
                    left,
                    after,
                ) && left@.len() == 0
        },
{
    if prepared(un_group, take_to_distinct, table.pipeline, stage.context, Err(e)) {
        lemma_passes_fail(un_group, take_to_distinct, table.pipeline, stage.context, e);
    } else {
        let (ps, c) = choose|ps: Seq<AtomicTable>, c: MaterializationContext|
            #[trigger] cut_into(un_group, take_to_distinct, table.pipeline, stage.context, ps, c)
                && ps.len() == 0;
        law_passes_run_in_turn(un_group, take_to_distinct, table.pipeline, stage.context, ps, c);
        let left = choose|left: Vec<Transform>|
            {
                &&& #[trigger] passes_leave(
                    un_group,
                    take_to_distinct,
                    table.pipeline,
                    stage.context,
                    left,
                    c,
                )
                &&& ps.len() == pieces(left@).len()
            };
        law_pieces_make_up_the_pipeline(left@);
    }
}

/// A transform reads a table: by its name, its alias and its identifier, with the frame that the
/// last transform of the table leaves.
pub open spec fn reads_table(t: Transform, table: AtomicTable) -> bool {
    &&& t.kind matches TransformKind::From(r)
    &&& table.name matches Some(name)
    &&& r.name == name.name
    &&& r.alias == name.alias
    &&& r.declared_at == name.declared_at
    &&& r.ty == Some(Ty::Table(t.ty))
    &&& t.ty == table.pipeline@.last().ty
    &&& !t.is_complex
    &&& t.span is None
}

/// A pipeline that is to read a table starts with a transform that reads it, whatever its alias,
/// identifier and frame are, and goes on as before. Without a table it is left alone.
pub proof fn law_tables_are_read_first(table: TableRef, frame: Rc<Frame>, pipeline: Seq<Transform>)
    ensures
        reading(None, pipeline) == pipeline,
        ({
            let longer = reading(Some((table, frame)), pipeline);
            &&& longer.len() == pipeline.len() + 1
            &&& longer.skip(1) == pipeline
            &&& !longer[0].is_complex
            &&& longer[0].span is None
            &&& longer[0].ty == frame
            &&& longer[0].kind matches TransformKind::From(r)
            &&& r.name == table.name
            &&& r.alias == table.alias
            &&& r.declared_at == table.declared_at
            &&& r.ty matches Some(Ty::Table(f)) && f == frame
        }),
{
    assert(reading(Some((table, frame)), pipeline).skip(1) =~= pipeline);
}

/// Pieces are named whatever they hold. Each goes on from the one before it, unless that holds
/// nothing, and then it stands alone. All but the last are numbered on and declared.
pub proof fn law_named_pieces(
    tables: Seq<AtomicTable>,
    pieces: Seq<Seq<Transform>>,
    name: String,
    id: Option<usize>,
    index: int,
    before: Seq<Declaration>,
    after: Seq<Declaration>,
    k: int,
)
    requires
        named(tables, pieces, name, id, index, before, after),
        0 <= index,
        0 <= k < tables.len(),
    ensures
        tables.len() == pieces.len(),
        if k > 0 && tables[k - 1].pipeline@.len() == 0 {
            tables[k].pipeline@ == pieces[k]
        } else {
            goes_on(tables, pieces, k)
        },
        k < tables.len() - 1 ==> is_numbered(tables[k], index + k, after),
        k == tables.len() - 1 ==> (tables[k].name matches Some(t) && t.name == name && t.declared_at
            == id && t.alias is None && t.ty is None),
        after.len() == before.len() + tables.len() - 1,
        forall|i: int| 0 <= i < before.len() ==> after[i] == #[trigger] before[i],
{
    assert(reads_on(tables, pieces, k));
    if k > 0 {
        assert(generated(tables[k - 1], index + (k - 1), before.len() + (k - 1)));
        if tables[k - 1].pipeline@.len() > 0 {
            assert(tables[k].pipeline@.skip(1) =~= pieces[k]);
        }
    }
    if k < tables.len() - 1 {
        lemma_numbered(
            tables[k],
            index + k,
            before.len() + k,
            before,
            after,
            index,
            tables.len() - 1,
        );
    }
    assert forall|i: int| 0 <= i < before.len() implies after[i] == #[trigger] before[i] by {
        assert(after.take(before.len() as int)[i] == after[i]);
    }
}

/// A table is the first piece as it stands, or another piece after a transform that reads the
/// table before.
pub open spec fn goes_on(tables: Seq<AtomicTable>, pieces: Seq<Seq<Transform>>, j: int) -> bool {
    let pipeline = tables[j].pipeline@;
    if j == 0 {
        pipeline == pieces[0]
    } else {
        &&& pipeline.len() == pieces[j].len() + 1
        &&& reads_table(pipeline[0], tables[j - 1])
        &&& pipeline.skip(1) == pieces[j]
    }
}

/// A table has a numbered name, and is declared under it.
pub open spec fn is_numbered(table: AtomicTable, number: int, declarations: Seq<Declaration>) -> bool {
    &&& table.name matches Some(t)
    &&& "table_"@.is_prefix_of(t.name@)
    &&& t.name@.len() > "table_"@.len()
    &&& number >= 0
    &&& t.name@.skip("table_"@.len() as int) == nat_text(number as nat)
    &&& t.alias is None
    &&& t.ty is None
    &&& t.declared_at matches Some(at)
    &&& at < declarations.len()
    &&& declarations[at as int] matches Declaration::Table(name) && name@ == t.name@
}

/// Tables are what is made of a table of which the passes leave a pipeline: its pieces, each
/// reading the one before. All but the last are numbered on and declared, and the last has the
/// name and the identifier of the table. Nothing that was declared before is lost.
pub open spec fn is_made_of(
    tables: Seq<AtomicTable>,
    table: Table,
    left: Seq<Transform>,
    number: int,
    before: Seq<Declaration>,
    after: Seq<Declaration>,
) -> bool {
    &&& tables.len() > 0
    &&& tables.len() == pieces(left).len()
    &&& forall|j: int| 0 <= j < tables.len() ==> #[trigger] goes_on(tables, pieces(left), j)
    &&& forall|j: int|
        0 <= j < tables.len() - 1 ==> is_numbered(#[trigger] tables[j], number + j, after)
    &&& tables.last().name matches Some(t) && t.name == table.name && t.declared_at == table.id
        && t.alias is None && t.ty is None
    &&& forall|j: int| 0 <= j < tables.len() ==> (#[trigger] tables[j]).frame is None
    &&& after.len() == before.len() + tables.len() - 1
    &&& forall|i: int| 0 <= i < before.len() ==> after[i] == #[trigger] before[i]
}

/// A table with a generated name is numbered and declared.
proof fn lemma_numbered(
    table: AtomicTable,
    index: int,
    id: int,
    before: Seq<Declaration>,
    after: Seq<Declaration>,
    first: int,
    count: int,
)
    requires
        0 <= index,
        generated(table, index, id),
        declared(before, after, first, count),
        index - first == id - before.len(),
        0 <= index - first < count,
    ensures
        is_numbered(table, index, after),
{
    let t = table.name->0;
    lemma_nat_text_digits(index as nat);
    assert(t.name@.skip("table_"@.len() as int) =~= nat_text(index as nat));
    assert("table_"@ =~= t.name@.subrange(0, "table_"@.len() as int));
    let k = index - first;
    assert(after[before.len() + k] is Table);
}

/// Each table is prepared with the declarations that the tables before it left, and its pieces
/// come where theirs end, numbered on from theirs. The first starts with nothing but the
/// declarations that there are.
pub proof fn law_tables_are_cut_in_turn<G, D>(
    un_group: G,
    take_to_distinct: D,
    tables: Seq<Table>,
    context: MaterializationContext,
    stages: Seq<Stage>,
    atomics: Seq<AtomicTable>,
    k: int,
) where
    G: Fn(Vec<Transform>) -> Result<Vec<Transform>, Error>,
    D: Fn(Vec<Transform>, MaterializationContext) -> Result<
        (Vec<Transform>, MaterializationContext),
        Error,
    >,

    requires
        cut_tables(un_group, take_to_distinct, tables, context, stages, atomics),
        0 <= k < tables.len(),
    ensures
        stages.len() == tables.len() + 1,
        stages[0].count == 0,
        stages[0].context == context,
        stages.last().count == atomics.len(),
        0 <= stages[k].count < stages[k + 1].count <= atomics.len(),
        exists|left: Vec<Transform>, c: MaterializationContext|
            {
                &&& #[trigger] passes_leave(
                    un_group,
                    take_to_distinct,
                    tables[k].pipeline,
                    stages[k].context,
                    left,
                    c,
                )
                &&& is_made_of(
                    atomics.subrange(stages[k].count, stages[k + 1].count),
                    tables[k],
                    left@,
                    stages[k].count - k,
                    c.declarations@,
                    stages[k + 1].context.declarations@,
                )
            },
{
    let a = stages[k];
    let b = stages[k + 1];
    let table = tables[k];
    lemma_stages(un_group, take_to_distinct, tables, context, stages, atomics, k, k + 1);
    lemma_stages(un_group, take_to_distinct, tables, context, stages, atomics, k, k);
    assert(cut_table(un_group, take_to_distinct, tables[k], a, b, atomics));
    let added = atomics.subrange(a.count, b.count);
    let (ps, c) = choose|ps: Seq<AtomicTable>, c: MaterializationContext|
        {
            &&& #[trigger] cut_into(un_group, take_to_distinct, table.pipeline, a.context, ps, c)
            &&& named(
                added,
                pipelines(ps),
                table.name,
                table.id,
                a.index,
                c.declarations@,
                b.context.declarations@,
            )
            &&& b.index == a.index + ps.len() - 1
        };
    law_passes_run_in_turn(un_group, take_to_distinct, table.pipeline, a.context, ps, c);
    let left = choose|left: Vec<Transform>|
        {
            &&& #[trigger] passes_leave(
                un_group,
                take_to_distinct,
                table.pipeline,
                a.context,
                left,
                c,
            )
            &&& ps.len() == pieces(left@).len()
            &&& forall|i: int|
                0 <= i < ps.len() ==> (#[trigger] ps[i]).pipeline@ == pieces(left@)[i]
        };
    assert(pipelines(ps) =~= pieces(left@));
    law_pieces_make_up_the_pipeline(left@);
    lemma_made_of(
        added,
        table,
        left@,
        a.index,
        c.declarations@,
        b.context.declarations@,
    );
    assert forall|j: int| 0 <= j < added.len() implies (#[trigger] added[j]).frame is None by {
        assert(atomics[a.count + j].frame is None);
    }
}

/// Named pieces are what is made of a table.
proof fn lemma_made_of(
    added: Seq<AtomicTable>,
    table: Table,
    left: Seq<Transform>,
    index: int,
    before: Seq<Declaration>,
    after: Seq<Declaration>,
)
    requires
        0 <= index,
        named(added, pieces(left), table.name, table.id, index, before, after),
    ensures
        forall|j: int| 0 <= j < added.len() ==> #[trigger] goes_on(added, pieces(left), j),
        forall|j: int|
            0 <= j < added.len() - 1 ==> is_numbered(#[trigger] added[j], index + j, after),
        forall|i: int| 0 <= i < before.len() ==> after[i] == #[trigger] before[i],
{
    law_pieces_make_up_the_pipeline(left);
    assert forall|j: int| 0 <= j < added.len() implies #[trigger] goes_on(
        added,
        pieces(left),
        j,
    ) by {
        assert(reads_on(added, pieces(left), j));
        if j > 0 {
            assert(reads_on(added, pieces(left), j - 1));
            assert(pieces(left)[j - 1].len() > 0);
            assert(generated(added[j - 1], index + (j - 1), before.len() + (j - 1)));
            assert(added[j - 1].pipeline@.len() > 0);
            assert(added[j].pipeline@.skip(1) =~= pieces(left)[j]);
        }
    }
    assert forall|j: int| 0 <= j < added.len() - 1 implies is_numbered(
        #[trigger] added[j],
        index + j,
        after,
    ) by {
        lemma_numbered(
            added[j],
            index + j,
            before.len() + j,
            before,
            after,
            index,
            added.len() - 1,
        );
    }
    assert forall|i: int| 0 <= i < before.len() implies after[i] == #[trigger] before[i] by {
        assert(after.take(before.len() as int)[i] == after[i]);
    }
}

} // verus!
