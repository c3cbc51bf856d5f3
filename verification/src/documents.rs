//! Snapshot documents and snapshot loading.
//!
//! A snapshot file holds one JSON array of documents.  A document is an
//! opaque JSON record keyed by its natural identifier, the `url` field;
//! everything else it holds travels as its serialized body.  Loading takes
//! the contents of every snapshot file of a category, keeps the files that
//! parse and skips the ones that do not — a skipped file is a warning, not
//! a failure of the run.

use vstd::prelude::*;
use vstd::string::*;

verus! {

/// One record of a snapshot: the natural key and the full serialized
/// field set.  Disk copies and store copies are reconciled by key only.
#[derive(Debug, PartialEq, Eq)]
pub struct Document {
    pub url: String,
    pub body: String,
}

/// The mathematical value of a [`Document`].
pub struct DocumentModel {
    pub url: Seq<char>,
    pub body: Seq<char>,
}

impl View for Document {
    type V = DocumentModel;

    open spec fn view(&self) -> DocumentModel {
        DocumentModel { url: self.url@, body: self.body@ }
    }
}

impl Document {
    /// An identical copy, field for field.
    pub fn duplicate(&self) -> (r: Document)
        ensures
            r@ == self@,
    {
        Document { url: self.url.clone(), body: self.body.clone() }
    }
}

/// The contents of a batch of documents, as values.
pub open spec fn batch_view(b: Seq<Document>) -> Seq<DocumentModel> {
    b.map_values(|d: Document| d@)
}

/// What one snapshot file's text parses to: `None` when the text is not a
/// JSON array, otherwise the documents of the array in order.
pub uninterp spec fn parsed_snapshot(text: Seq<char>) -> Option<Seq<DocumentModel>>;

/// Relies on serde_json::from_str to accept exactly the texts that are
/// valid JSON arrays, and on serde_json's value accessors and serializer
/// to read each element's `url` field (empty when absent or not a string)
/// and to render the element back; all of it a function of the text alone.
#[verifier::external_body]
fn parse_snapshot(text: &str) -> (r: Option<Vec<Document>>)
    ensures
        match r {
            Some(docs) => parsed_snapshot(text@) == Some(batch_view(docs@)),
            None => parsed_snapshot(text@) is None,
        },
{
    let values: Vec<serde_json::Value> = match serde_json::from_str(text) {
        Ok(v) => v,
        Err(_) => {
            return None;
        },
    };
    Some(values
        .iter()
        .map(|v| Document {
            url: v.get("url").and_then(|u| u.as_str()).unwrap_or("").to_string(),
            body: v.to_string(),
        })
        .collect())
}

/// The documents loaded from a sequence of snapshot-file texts: the
/// concatenation of every file that parses, in file order.  This is the
/// load invariant of a sync pass: exactly the union of the parseable
/// snapshot files, nothing silently merged from corrupt ones.
pub open spec fn loaded_documents(texts: Seq<Seq<char>>) -> Seq<DocumentModel>
    decreases texts.len(),
{
    if texts.len() == 0 {
        Seq::empty()
    } else {
        loaded_documents(texts.drop_last()) + (match parsed_snapshot(texts.last()) {
            Some(b) => b,
            None => Seq::empty(),
        })
    }
}

/// The per-file batches loaded from a sequence of snapshot-file texts:
/// one batch per file that parses, in file order.
pub open spec fn loaded_batches(texts: Seq<Seq<char>>) -> Seq<Seq<DocumentModel>>
    decreases texts.len(),
{
    if texts.len() == 0 {
        Seq::empty()
    } else {
        let rest = loaded_batches(texts.drop_last());
        match parsed_snapshot(texts.last()) {
            Some(b) => rest.push(b),
            None => rest,
        }
    }
}

/// How many of the texts fail to parse and are skipped with a warning.
pub open spec fn skipped_count(texts: Seq<Seq<char>>) -> int
    decreases texts.len(),
{
    if texts.len() == 0 {
        0
    } else {
        skipped_count(texts.drop_last()) + (if parsed_snapshot(texts.last()) is None {
            1int
        } else {
            0int
        })
    }
}

/// The two loaders agree: the flat load of a category is its batched
/// load laid end to end.
pub proof fn lemma_loaded_documents_flatten(texts: Seq<Seq<char>>)
    ensures
        loaded_documents(texts) == crate::mongo::concat_batches(loaded_batches(texts)),
    decreases texts.len(),
{
    if texts.len() > 0 {
        lemma_loaded_documents_flatten(texts.drop_last());
        match parsed_snapshot(texts.last()) {
            Some(b) => {
                assert(loaded_batches(texts.drop_last()).push(b).drop_last() =~= loaded_batches(
                    texts.drop_last()));
            },
            None => {
                assert(loaded_documents(texts) =~= loaded_documents(texts.drop_last()));
            },
        }
    } else {
        assert(loaded_documents(texts) =~= crate::mongo::concat_batches(
            loaded_batches(texts)));
    }
}

/// The contents of a sequence of snapshot-file texts, as values.
pub open spec fn texts_view(ts: Seq<String>) -> Seq<Seq<char>> {
    ts.map_values(|s: String| s@)
}

/// The contents of a sequence of batches, as values.
pub open spec fn batches_view(bs: Seq<Vec<Document>>) -> Seq<Seq<DocumentModel>> {
    bs.map_values(|b: Vec<Document>| batch_view(b@))
}

/// Collects the documents of every parseable snapshot text into one flat
/// sequence, and counts the texts that were skipped as unparseable.
pub fn collect_documents(texts: &Vec<String>) -> (r: (Vec<Document>, usize))
    ensures
        batch_view(r.0@) == loaded_documents(texts_view(texts@)),
        r.1 == skipped_count(texts_view(texts@)),
{
    let mut docs: Vec<Document> = Vec::new();
    let mut skipped: usize = 0;
    let mut i: usize = 0;
    proof {
        assert(texts_view(texts@.subrange(0, 0)) =~= Seq::<Seq<char>>::empty());
        assert(batch_view(docs@) =~= Seq::<DocumentModel>::empty());
    }
    while i < texts.len()
        invariant
            0 <= i <= texts@.len(),
            skipped <= i,
            batch_view(docs@) == loaded_documents(texts_view(texts@.subrange(0, i as int))),
            skipped == skipped_count(texts_view(texts@.subrange(0, i as int))),
        decreases texts@.len() - i,
    {
        let ghost prefix = texts_view(texts@.subrange(0, i as int));
        let ghost prefix1 = texts_view(texts@.subrange(0, i + 1));
        proof {
            assert(prefix1.drop_last() =~= prefix);
            assert(prefix1.last() == texts@[i as int]@);
        }
        match parse_snapshot(texts[i].as_str()) {
            Some(mut batch) => {
                let ghost old_docs = docs@;
                let ghost new_batch = batch@;
                docs.append(&mut batch);
                proof {
                    assert(batch_view(docs@) =~= batch_view(old_docs) + batch_view(new_batch));
                }
            },
            None => {
                skipped = skipped + 1;
                proof {
                    assert(batch_view(docs@) + Seq::<DocumentModel>::empty() =~= batch_view(
                        docs@));
                }
            },
        }
        i = i + 1;
    }
    proof {
        assert(texts@.subrange(0, texts@.len() as int) =~= texts@);
    }
    (docs, skipped)
}

/// Collects one batch per parseable snapshot text, in file order, and
/// counts the texts that were skipped as unparseable.
pub fn collect_document_batches(texts: &Vec<String>) -> (r: (Vec<Vec<Document>>, usize))
    ensures
        batches_view(r.0@) == loaded_batches(texts_view(texts@)),
        r.1 == skipped_count(texts_view(texts@)),
{
    let mut batches: Vec<Vec<Document>> = Vec::new();
    let mut skipped: usize = 0;
    let mut i: usize = 0;
    proof {
        assert(texts_view(texts@.subrange(0, 0)) =~= Seq::<Seq<char>>::empty());
        assert(batches_view(batches@) =~= Seq::<Seq<DocumentModel>>::empty());
    }
    while i < texts.len()
        invariant
            0 <= i <= texts@.len(),
            skipped <= i,
            batches_view(batches@) == loaded_batches(texts_view(texts@.subrange(0, i as int))),
            skipped == skipped_count(texts_view(texts@.subrange(0, i as int))),
        decreases texts@.len() - i,
    {
        let ghost prefix = texts_view(texts@.subrange(0, i as int));
        let ghost prefix1 = texts_view(texts@.subrange(0, i + 1));
        proof {
            assert(prefix1.drop_last() =~= prefix);
            assert(prefix1.last() == texts@[i as int]@);
        }
        match parse_snapshot(texts[i].as_str()) {
            Some(batch) => {
                let ghost old_batches = batches@;
                let ghost new_batch = batch@;
                batches.push(batch);
                proof {
                    assert(batches_view(batches@) =~= batches_view(old_batches).push(
                        batch_view(new_batch)));
                }
            },
            None => {
                skipped = skipped + 1;
            },
        }
        i = i + 1;
    }
    proof {
        assert(texts@.subrange(0, texts@.len() as int) =~= texts@);
    }
    (batches, skipped)
}

} // verus!
