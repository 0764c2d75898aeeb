//! Work cut into batches, and chunks turned into rows of a vector store.

use crate::path::{path_text, HostPath};
use crate::text::views;
use crate::types::{CodeChunk, EmbeddingVector};
use crate::vectordb::local::{ChunkMeta, ChunkMetaView, DocView, InsertRow};
use vstd::prelude::*;
use vstd::string::StringExecFns;

verus! {

/// How many chunks are embedded at once.
pub const EMBEDDING_BATCH_SIZE: usize = 32;

/// How many rows are inserted at once.
pub const INSERT_BATCH_SIZE: usize = 500;

/// `items` cut into pieces of `size`, the last one possibly shorter.
pub open spec fn pieces<T>(items: Seq<T>, size: int) -> Seq<Seq<T>>
    decreases items.len(),
{
    if items.len() == 0 || size <= 0 {
        Seq::empty()
    } else if items.len() <= size {
        seq![items]
    } else {
        seq![items.take(size)] + pieces(items.skip(size), size)
    }
}

/// All items of some pieces, in order.
pub open spec fn flat<T>(parts: Seq<Seq<T>>) -> Seq<T>
    decreases parts.len(),
{
    if parts.len() == 0 {
        Seq::empty()
    } else {
        flat(parts.drop_last()) + parts.last()
    }
}

/// Cuts `items` into pieces of `size`.
pub fn in_batches<T>(items: Vec<T>, size: usize) -> (r: Vec<Vec<T>>)
    requires
        size > 0,
    ensures
        views(r@) == pieces(items@, size as int),
{
    let ghost all = items@;
    let mut out: Vec<Vec<T>> = Vec::new();
    let mut rest = items;
    assert(views(out@) + pieces(rest@, size as int) =~= pieces(all, size as int));
    while rest.len() > size
        invariant
            size > 0,
            views(out@) + pieces(rest@, size as int) == pieces(all, size as int),
        decreases rest@.len(),
    {
        let ghost whole = rest@;
        let ghost done = views(out@);
        let tail = rest.split_off(size);
        proof {
            crate::text::lemma_views_push(out@, rest);
            assert(rest@ =~= whole.take(size as int));
            assert(tail@ =~= whole.skip(size as int));
            assert(done.push(rest@) + pieces(tail@, size as int) =~= done + (seq![rest@] + pieces(
                tail@,
                size as int,
            )));
        }
        out.push(rest);
        rest = tail;
    }
    if rest.len() > 0 {
        proof {
            crate::text::lemma_views_push(out@, rest);
        }
        out.push(rest);
    }
    assert(views(out@) =~= pieces(all, size as int));
    out
}

/// Cutting into pieces loses nothing and keeps the order, and no piece is empty
/// or larger than `size`.
pub proof fn law_pieces_lose_nothing<T>(items: Seq<T>, size: int)
    requires
        size > 0,
    ensures
        flat(pieces(items, size)) == items,
        forall|i: int|
            0 <= i < pieces(items, size).len() ==> 0 < (#[trigger] pieces(items, size)[i]).len()
                <= size,
    decreases items.len(),
{
    let parts = pieces(items, size);
    if items.len() == 0 {
    } else if items.len() <= size {
        reveal_with_fuel(flat, 2);
        assert(parts.drop_last() =~= Seq::<Seq<T>>::empty());
        assert(flat(parts) =~= items);
    } else {
        let first = items.take(size);
        let rest = items.skip(size);
        law_pieces_lose_nothing(rest, size);
        lemma_flat_prepend(first, pieces(rest, size));
        assert(first + rest =~= items);
    }
}

proof fn lemma_flat_prepend<T>(first: Seq<T>, parts: Seq<Seq<T>>)
    ensures
        flat(seq![first] + parts) == first + flat(parts),
    decreases parts.len(),
{
    let all = seq![first] + parts;
    if parts.len() == 0 {
        reveal_with_fuel(flat, 2);
        assert(all.drop_last() =~= Seq::<Seq<T>>::empty());
        assert(flat(all) =~= first + flat(parts));
    } else {
        lemma_flat_prepend(first, parts.drop_last());
        assert(all.drop_last() =~= seq![first] + parts.drop_last());
        assert(flat(all) =~= first + flat(parts));
    }
}

/// The row for a chunk and its embedding.
pub open spec fn row_of(pair: (CodeChunk, EmbeddingVector)) -> DocView {
    DocView {
        id: pair.0.id@,
        content: pair.0.content@,
        vector: pair.1.vector@,
        metadata: ChunkMetaView {
            file_path: pair.0.file_path@,
            relative_path: pair.0.relative_path@,
            start_line: pair.0.start_line,
            end_line: pair.0.end_line,
            language: pair.0.language@,
        },
    }
}

/// The rows for embedded chunks, in order.
pub fn insert_rows_for(embedded: Vec<(CodeChunk, EmbeddingVector)>) -> (r: Vec<InsertRow>)
    ensures
        views(r@) == Seq::new(embedded@.len(), |i: int| row_of(embedded@[i])),
{
    let ghost all = Seq::new(embedded@.len(), |i: int| row_of(embedded@[i]));
    let mut rows: Vec<InsertRow> = Vec::new();
    for pair in it: embedded
        invariant
            rows@.len() == it.index(),
            it.seq().len() == all.len(),
            forall|i: int| 0 <= i < all.len() ==> all[i] == row_of(#[trigger] it.seq()[i]),
            forall|i: int| 0 <= i < rows@.len() ==> (#[trigger] rows@[i])@ == all[i],
    {
        let (chunk, embedding) = pair;
        rows.push(
            InsertRow {
                id: chunk.id,
                content: chunk.content,
                vector: embedding.vector,
                metadata: ChunkMeta {
                    file_path: chunk.file_path,
                    relative_path: chunk.relative_path,
                    start_line: chunk.start_line,
                    end_line: chunk.end_line,
                    language: chunk.language,
                },
            },
        );
    }
    assert(views(rows@) =~= all);
    rows
}

/// What a file that could not be split is reported with.
pub fn split_failure(file_path: &HostPath, error: &str) -> (r: String)
    ensures
        r@ == "Failed to split "@ + path_text(file_path@) + ": "@ + error@,
{
    let mut text = "Failed to split ".to_owned();
    text.append(file_path.to_text().as_str());
    text.append(": ");
    text.append(error);
    text
}

/// The chunks of the files that could be split, in order.
pub open spec fn chunks_of(results: Seq<Result<Vec<CodeChunk>, String>>) -> Seq<CodeChunk>
    decreases results.len(),
{
    if results.len() == 0 {
        Seq::empty()
    } else {
        let earlier = chunks_of(results.drop_last());
        match results.last() {
            Ok(chunks) => earlier + chunks@,
            Err(_) => earlier,
        }
    }
}

/// The warnings of the files that could not be split, in order.
pub open spec fn failures_of(results: Seq<Result<Vec<CodeChunk>, String>>) -> Seq<Seq<char>>
    decreases results.len(),
{
    if results.len() == 0 {
        Seq::empty()
    } else {
        let earlier = failures_of(results.drop_last());
        match results.last() {
            Ok(_) => earlier,
            Err(warning) => earlier.push(warning@),
        }
    }
}

/// Brings together what splitting every file gave: all chunks, and a warning for
/// each file that could not be split.
pub fn merge_split_results(results: Vec<Result<Vec<CodeChunk>, String>>) -> (r: (
    Vec<CodeChunk>,
    Vec<String>,
))
    ensures
        r.0@ == chunks_of(results@),
        views(r.1@) == failures_of(results@),
{
    let ghost all = results@;
    let mut chunks: Vec<CodeChunk> = Vec::new();
    let mut warnings: Vec<String> = Vec::new();
    assert(all.take(0) =~= Seq::empty());
    assert(views(warnings@) =~= failures_of(all.take(0)));
    for result in it: results
        invariant
            it.seq() == all,
            chunks@ == chunks_of(all.take(it.index() as int)),
            views(warnings@) == failures_of(all.take(it.index() as int)),
    {
        proof {
            let n = it.index() as int;
            assert(all.take(n + 1).drop_last() =~= all.take(n));
            assert(all.take(n + 1).last() == result);
        }
        match result {
            Ok(found) => {
                let mut more = found;
                chunks.append(&mut more);
            },
            Err(warning) => {
                proof {
                    crate::text::lemma_views_push(warnings@, warning);
                }
                warnings.push(warning);
            },
        }
    }
    assert(all.take(all.len() as int) =~= all);
    (chunks, warnings)
}

/// Every piece but the last has exactly the size asked for.
pub proof fn law_only_the_last_piece_is_shorter<T>(items: Seq<T>, size: int, i: int)
    requires
        size > 0,
        0 <= i < pieces(items, size).len() - 1,
    ensures
        pieces(items, size)[i].len() == size,
        pieces(items, size)[i] == items.subrange(i * size, (i + 1) * size),
    decreases items.len(),
{
    let rest = items.skip(size);
    if i > 0 {
        law_only_the_last_piece_is_shorter(rest, size, i - 1);
        assert(pieces(items, size)[i] == pieces(rest, size)[i - 1]);
        lemma_pieces_len(rest, size);
        assert((i - 1) * size + size == i * size) by (nonlinear_arith);
        assert(i * size + size == (i + 1) * size) by (nonlinear_arith);
        assert(i * size <= (pieces(rest, size).len() - 1) * size) by (nonlinear_arith)
            requires
                i <= pieces(rest, size).len() - 1,
                size > 0,
        ;
        assert((i - 1) * size >= 0) by (nonlinear_arith)
            requires
                i > 0,
                size > 0,
        ;
        assert(rest.subrange((i - 1) * size, i * size) =~= items.subrange(
            i * size,
            (i + 1) * size,
        ));
    } else {
        assert(0 * size == 0);
        assert(1 * size == size);
        assert(items.take(size) =~= items.subrange(0, size));
    }
}

proof fn lemma_pieces_len<T>(items: Seq<T>, size: int)
    requires
        size > 0,
    ensures
        items.len() > 0 ==> pieces(items, size).len() > 0 && (pieces(items, size).len() - 1) * size
            < items.len(),
    decreases items.len(),
{
    if items.len() > size {
        let rest = items.skip(size);
        lemma_pieces_len(rest, size);
        let n = pieces(rest, size).len() as int;
        assert(pieces(items, size).len() == n + 1);
        assert(n * size == (n - 1) * size + size) by (nonlinear_arith);
    } else if items.len() > 0 {
        assert(pieces(items, size).len() == 1);
        assert(0 * size == 0);
    }
}

/// Chunks are embedded by thirty-two and inserted by five hundred.
pub proof fn law_batches_have_their_sizes<T>(items: Seq<T>, i: int)
    ensures
        0 <= i < pieces(items, EMBEDDING_BATCH_SIZE as int).len() - 1 ==> pieces(
            items,
            EMBEDDING_BATCH_SIZE as int,
        )[i].len() == 32,
        0 <= i < pieces(items, INSERT_BATCH_SIZE as int).len() - 1 ==> pieces(
            items,
            INSERT_BATCH_SIZE as int,
        )[i].len() == 500,
{
    if 0 <= i < pieces(items, EMBEDDING_BATCH_SIZE as int).len() - 1 {
        law_only_the_last_piece_is_shorter(items, EMBEDDING_BATCH_SIZE as int, i);
    }
    if 0 <= i < pieces(items, INSERT_BATCH_SIZE as int).len() - 1 {
        law_only_the_last_piece_is_shorter(items, INSERT_BATCH_SIZE as int, i);
    }
}

/// A row holds the chunk, where it comes from, and its embedding.
pub proof fn law_row_holds_chunk_and_embedding(chunk: CodeChunk, embedding: EmbeddingVector)
    ensures
        ({
            let row = row_of((chunk, embedding));
            &&& row.id == chunk.id@
            &&& row.content == chunk.content@
            &&& row.vector == embedding.vector@
            &&& row.metadata.file_path == chunk.file_path@
            &&& row.metadata.relative_path == chunk.relative_path@
            &&& row.metadata.start_line == chunk.start_line
            &&& row.metadata.end_line == chunk.end_line
            &&& row.metadata.language == chunk.language@
        }),
{
}

/// What splitting gave comes together in order, file by file: the chunks of each file
/// that could be split, and the warning of each that could not.
pub proof fn law_split_results_come_together_in_order(
    first: Seq<Result<Vec<CodeChunk>, String>>,
    second: Seq<Result<Vec<CodeChunk>, String>>,
    result: Result<Vec<CodeChunk>, String>,
)
    ensures
        chunks_of(first + second) == chunks_of(first) + chunks_of(second),
        failures_of(first + second) == failures_of(first) + failures_of(second),
        result is Ok ==> chunks_of(seq![result]) == result->Ok_0@ && failures_of(
            seq![result],
        ).len() == 0,
        result is Err ==> chunks_of(seq![result]).len() == 0 && failures_of(seq![result])
            == seq![result->Err_0@],
    decreases second.len(),
{
    let one = seq![result];
    assert(one.drop_last() =~= Seq::empty());
    assert(chunks_of(one.drop_last()) =~= Seq::empty());
    assert(failures_of(one.drop_last()) =~= Seq::empty());
    if result is Ok {
        assert(Seq::empty() + result->Ok_0@ =~= result->Ok_0@);
    } else {
        assert(failures_of(one) =~= seq![result->Err_0@]);
    }
    if second.len() == 0 {
        assert(first + second =~= first);
        assert(chunks_of(first) + chunks_of(second) =~= chunks_of(first));
        assert(failures_of(first) + failures_of(second) =~= failures_of(first));
    } else {
        assert((first + second).drop_last() =~= first + second.drop_last());
        assert((first + second).last() == second.last());
        law_split_results_come_together_in_order(first, second.drop_last(), result);
        assert(chunks_of(first + second) =~= chunks_of(first) + chunks_of(second));
        assert(failures_of(first + second) =~= failures_of(first) + failures_of(second));
    }
}

/// What becomes of embedded chunks: a row for each, in order, with its own text, place and
/// embedding.
pub proof fn law_rows_are_those_of_the_chunks(
    embedded: Vec<(CodeChunk, EmbeddingVector)>,
    r: Vec<InsertRow>,
    i: int,
)
    requires
        call_ensures(insert_rows_for, (embedded,), r),
        0 <= i < embedded@.len(),
    ensures
        r@.len() == embedded@.len(),
        r@[i].id@ == embedded@[i].0.id@,
        r@[i].content@ == embedded@[i].0.content@,
        r@[i].vector@ == embedded@[i].1.vector@,
        r@[i].metadata.file_path@ == embedded@[i].0.file_path@,
        r@[i].metadata.relative_path@ == embedded@[i].0.relative_path@,
        r@[i].metadata.start_line == embedded@[i].0.start_line,
        r@[i].metadata.end_line == embedded@[i].0.end_line,
        r@[i].metadata.language@ == embedded@[i].0.language@,
{
    let shown = views(r@);
    assert(shown.len() == embedded@.len());
    assert(shown[i] == row_of(embedded@[i]));
    assert(shown[i] == r@[i]@);
}

} // verus!
