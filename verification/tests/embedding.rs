use rust_indexer::engine::batch::{
    in_batches, insert_rows_for, merge_split_results, EMBEDDING_BATCH_SIZE, INSERT_BATCH_SIZE,
};
use rust_indexer::engine::embedding::{texts_of, LossyEmbedding};
use rust_indexer::path::HostPath;
use rust_indexer::types::{CodeChunk, EmbeddingVector};

fn chunk(relative_path: &str, content: &str) -> CodeChunk {
    CodeChunk {
        id: relative_path.to_string(),
        content: content.to_string(),
        file_path: HostPath::from_text("/repo").join(relative_path),
        relative_path: relative_path.to_string(),
        start_line: 3,
        end_line: 7,
        language: "python".to_string(),
    }
}

fn embedding(n: u32) -> EmbeddingVector {
    EmbeddingVector { vector: vec![n] }
}

/// An embedder that refuses a batch with a bad text in it.
fn embed(chunks: Vec<CodeChunk>) -> (Vec<(CodeChunk, EmbeddingVector)>, Vec<String>, usize) {
    let mut work = LossyEmbedding::new(chunks);
    let mut calls = 0;
    while let Some(batch) = work.next_batch() {
        calls += 1;
        let texts = texts_of(&batch);
        let answer = if texts.iter().any(|text| text.contains("bad_embedding_payload")) {
            Err("input too large".to_string())
        } else {
            Ok((0..texts.len() as u32).map(embedding).collect())
        };
        work.record(batch, answer);
    }
    let (embedded, warnings) = work.finish();
    (embedded, warnings, calls)
}

#[test]
fn test_index_skips_unembeddable_chunks_after_batch_failure() {
    let chunks = vec![
        chunk("good.py", "def good():\n    return 1\n"),
        chunk("bad.py", "def bad():\n    return 'bad_embedding_payload'\n"),
    ];
    let (embedded, warnings, calls) = embed(chunks);
    assert_eq!(embedded.len(), 1);
    assert_eq!(embedded[0].0.relative_path, "good.py");
    assert_eq!(
        warnings,
        ["Skipped embedding for bad.py:3-7: input too large"]
    );
    assert_eq!(calls, 3);
}

#[test]
fn chunks_keep_their_order_and_none_is_lost() {
    let chunks: Vec<CodeChunk> = (0..7)
        .map(|n| {
            chunk(
                &format!("{n}.py"),
                if n == 2 || n == 5 { "bad_embedding_payload" } else { "ok" },
            )
        })
        .collect();
    let (embedded, warnings, _) = embed(chunks);
    let order: Vec<&str> = embedded
        .iter()
        .map(|(chunk, _)| chunk.relative_path.as_str())
        .collect();
    assert_eq!(order, ["0.py", "1.py", "3.py", "4.py", "6.py"]);
    assert_eq!(
        warnings,
        [
            "Skipped embedding for 2.py:3-7: input too large",
            "Skipped embedding for 5.py:3-7: input too large",
        ]
    );
}

#[test]
fn an_answer_of_another_length_is_refused() {
    let mut work = LossyEmbedding::new(vec![chunk("a.py", "x"), chunk("b.py", "y")]);
    let batch = work.next_batch().unwrap();
    work.record(batch, Ok(vec![embedding(1)]));
    let batch = work.next_batch().unwrap();
    assert_eq!(batch[0].relative_path, "a.py");
    work.record(batch, Ok(vec![embedding(1), embedding(2)]));
    let batch = work.next_batch().unwrap();
    work.record(batch, Ok(vec![embedding(9)]));
    assert!(work.next_batch().is_none());
    let (embedded, warnings) = work.finish();
    assert_eq!(embedded.len(), 1);
    assert_eq!(embedded[0].0.relative_path, "b.py");
    assert_eq!(embedded[0].1.vector, [9]);
    assert_eq!(
        warnings,
        ["Skipped embedding for a.py:3-7: embedding API returned 2 results for 1 inputs"]
    );
}

#[test]
fn no_chunks_need_no_answer() {
    let mut work = LossyEmbedding::new(Vec::new());
    assert!(work.next_batch().is_none());
    let (embedded, warnings) = work.finish();
    assert!(embedded.is_empty() && warnings.is_empty());
}

#[test]
fn work_is_cut_into_batches() {
    assert_eq!(EMBEDDING_BATCH_SIZE, 32);
    assert_eq!(INSERT_BATCH_SIZE, 500);
    let items: Vec<u32> = (0..70).collect();
    let batches = in_batches(items, EMBEDDING_BATCH_SIZE);
    let sizes: Vec<usize> = batches.iter().map(|batch| batch.len()).collect();
    assert_eq!(sizes, [32, 32, 6]);
    assert_eq!(batches.concat(), (0..70).collect::<Vec<u32>>());
    assert_eq!(in_batches(vec![1, 2], 2), [vec![1, 2]]);
    assert!(in_batches(Vec::<u32>::new(), 2).is_empty());
}

#[test]
fn rows_take_what_the_chunk_has() {
    let rows = insert_rows_for(vec![(chunk("a.py", "text"), embedding(5))]);
    assert_eq!(rows.len(), 1);
    assert_eq!(rows[0].id, "a.py");
    assert_eq!(rows[0].content, "text");
    assert_eq!(rows[0].vector, [5]);
    assert_eq!(rows[0].metadata.file_path.to_text(), "/repo/a.py");
    assert_eq!(rows[0].metadata.relative_path, "a.py");
    assert_eq!(rows[0].metadata.start_line, 3);
    assert_eq!(rows[0].metadata.end_line, 7);
    assert_eq!(rows[0].metadata.language, "python");
}

#[test]
fn split_results_are_merged_in_order() {
    let (chunks, warnings) = merge_split_results(vec![
        Ok(vec![chunk("a.py", "1"), chunk("a.py", "2")]),
        Err("no b".to_string()),
        Ok(Vec::new()),
        Ok(vec![chunk("c.py", "3")]),
        Err("no d".to_string()),
    ]);
    let contents: Vec<&str> = chunks.iter().map(|chunk| chunk.content.as_str()).collect();
    assert_eq!(contents, ["1", "2", "3"]);
    assert_eq!(warnings, ["no b", "no d"]);
}

#[test]
fn answers_that_change_their_mind_lose_no_chunk() {
    // The first two batches are refused whatever they hold, then every other one.
    let chunks: Vec<CodeChunk> = (0..9).map(|n| chunk(&format!("{n}.py"), "x")).collect();
    let mut work = LossyEmbedding::new(chunks);
    let mut calls = 0;
    while let Some(batch) = work.next_batch() {
        calls += 1;
        let answer = if calls <= 2 || calls % 2 == 0 {
            Err("busy".to_string())
        } else {
            Ok((0..batch.len() as u32).map(embedding).collect())
        };
        work.record(batch, answer);
    }
    assert!(calls <= 17);
    let (embedded, warnings) = work.finish();
    assert_eq!(embedded.len() + warnings.len(), 9);
    let mut order: Vec<&str> = embedded
        .iter()
        .map(|(chunk, _)| chunk.relative_path.as_str())
        .collect();
    let given = order.clone();
    order.sort();
    assert_eq!(order, given);
}
