//! Document-store reconciliation for the pipeline.
//!
//! A sync pass loads every snapshot of a category and reconciles the
//! store's collection with it.  When the collection is absent the pass
//! takes the create path: drop defensively, then bulk-insert every batch.
//! When it is present the pass takes the update path: upsert each record
//! by its natural key, so each key holds the last record fetched for it
//! no matter how often the same record was re-fetched across runs.
//!
//! The store itself lives out of process; this module carries the exact
//! contents model that the binary's store calls follow, and the decision
//! logic of a pass.

use vstd::pervasive::VecAdditionalExecFns;
use vstd::prelude::*;
use vstd::string::*;

use crate::documents::{batch_view, batches_view, Document, DocumentModel};
use crate::text::{contains_seq, str_contains, str_eq, trim_str, trimmed};

verus! {

/// Supported collections.
pub const COLLECTIONS: [&'static str; 2] = ["repos", "workflows"];

/// Where one collection's snapshot files live.
pub struct MongoDbFileConfig {
    pub json_data_dir: String,
}

/// Collection selection and file-system layout for the store sync step.
pub struct MongoDbConfiguration<'a> {
    pub collections: [&'a str; 2],
}

/// The index of the first collection whose name equals the trimmed
/// argument, or `usize::MAX` when none does.
pub open spec fn chosen_collection(first: Seq<char>, second: Seq<char>, arg: Option<
    String,
>) -> int {
    let inp = match arg {
        Some(v) => trimmed(v@),
        None => Seq::<char>::empty(),
    };
    if first == inp {
        0
    } else if second == inp {
        1
    } else {
        usize::MAX as int
    }
}

impl<'a> MongoDbConfiguration<'a> {
    /// Program constructor.
    pub fn new(collections: [&'a str; 2]) -> (r: MongoDbConfiguration<'a>)
        ensures
            r.collections == collections,
    {
        MongoDbConfiguration { collections }
    }

    /// MongoDb module collection configuration: the index of the
    /// collection named by the argument, `usize::MAX` when none is.
    pub fn choose_collection(&self, collection: Option<String>) -> (r: usize)
        ensures
            r == chosen_collection(self.collections@[0]@, self.collections@[1]@, collection),
    {
        let inp: String = match collection {
            Some(v) => trim_str(v.as_str()),
            None => String::new(),
        };
        if str_eq(self.collections[0], inp.as_str()) {
            0
        } else if str_eq(self.collections[1], inp.as_str()) {
            1
        } else {
            usize::MAX
        }
    }

    /// MongoDb module file system configuration: the directory, under
    /// `cwd`, that holds the collection's snapshot files.
    pub fn fs_config(&self, cwd: String, collection: String) -> (r: MongoDbFileConfig)
        ensures
            r.json_data_dir@ == cwd@ + "/.data/output/github/"@ + collection@ + "/"@,
    {
        let mut json_data_dir = cwd;
        json_data_dir.append("/.data/output/github/");
        json_data_dir.append(collection.as_str());
        json_data_dir.append("/");
        MongoDbFileConfig { json_data_dir }
    }
}

/// The index of the first document of `s` keyed by `url`, or `-1`.
pub open spec fn first_index_with_url(s: Seq<DocumentModel>, url: Seq<char>) -> int
    decreases s.len(),
{
    if s.len() == 0 {
        -1
    } else if s.first().url == url {
        0
    } else {
        let rest = first_index_with_url(s.drop_first(), url);
        if rest >= 0 {
            rest + 1
        } else {
            -1
        }
    }
}

/// Some document of `s` is keyed by `url`.
pub open spec fn has_url(s: Seq<DocumentModel>, url: Seq<char>) -> bool {
    first_index_with_url(s, url) >= 0
}

/// The index of the last document of batch `b` keyed by `url`, or `-1`.
pub open spec fn last_index_with_url(b: Seq<DocumentModel>, url: Seq<char>) -> int
    decreases b.len(),
{
    if b.len() == 0 {
        -1
    } else if b.last().url == url {
        b.len() - 1
    } else {
        last_index_with_url(b.drop_last(), url)
    }
}

/// Some document of batch `b` is keyed by `url`.
pub open spec fn batch_has_url(b: Seq<DocumentModel>, url: Seq<char>) -> bool {
    last_index_with_url(b, url) >= 0
}

/// One upsert: replace the first document keyed like `d`, or append `d`
/// when no document is.
pub open spec fn spec_upsert(s: Seq<DocumentModel>, d: DocumentModel) -> Seq<DocumentModel> {
    if has_url(s, d.url) {
        s.update(first_index_with_url(s, d.url), d)
    } else {
        s.push(d)
    }
}

/// The batch `b` upserted into `s`, record by record, in order.
pub open spec fn spec_upsert_all(s: Seq<DocumentModel>, b: Seq<DocumentModel>) -> Seq<
    DocumentModel,
>
    decreases b.len(),
{
    if b.len() == 0 {
        s
    } else {
        spec_upsert(spec_upsert_all(s, b.drop_last()), b.last())
    }
}

/// Every batch upserted into `s`, batch by batch, in order.
pub open spec fn spec_upsert_batches(s: Seq<DocumentModel>, bs: Seq<Seq<DocumentModel>>) -> Seq<
    DocumentModel,
>
    decreases bs.len(),
{
    if bs.len() == 0 {
        s
    } else {
        spec_upsert_all(spec_upsert_batches(s, bs.drop_last()), bs.last())
    }
}

/// Every batch laid end to end, in order: what the create path inserts.
pub open spec fn concat_batches(bs: Seq<Seq<DocumentModel>>) -> Seq<DocumentModel>
    decreases bs.len(),
{
    if bs.len() == 0 {
        Seq::empty()
    } else {
        concat_batches(bs.drop_last()) + bs.last()
    }
}

/// No two documents of `s` share a key.
pub open spec fn unique_urls(s: Seq<DocumentModel>) -> bool {
    forall|i: int, j: int|
        0 <= i < j < s.len() ==> (#[trigger] s[i]).url != (#[trigger] s[j]).url
}

/// The store's reply to a collection-name listing holds `target`.
pub open spec fn contains_name(names: Seq<Seq<char>>, target: Seq<char>) -> bool {
    exists|i: int| 0 <= i < names.len() && names[i] == target
}

/// Which path a sync pass takes.
#[derive(Debug)]
pub enum SyncPath {
    /// The collection is absent: drop defensively, then bulk-insert.
    CreateFresh,
    /// The collection is present: upsert record by record, by key.
    UpdateExisting,
}

/// Whether the target collection already exists in the store's list of
/// collection names.
pub fn collection_exists(names: &Vec<String>, target: &str) -> (r: bool)
    ensures
        r == contains_name(names@.map_values(|n: String| n@), target@),
{
    let ghost nv = names@.map_values(|n: String| n@);
    let mut i: usize = 0;
    while i < names.len()
        invariant
            0 <= i <= names@.len(),
            nv == names@.map_values(|n: String| n@),
            nv.len() == names@.len(),
            forall|k: int| 0 <= k < i ==> nv[k] != target@,
        decreases names@.len() - i,
    {
        if str_eq(names[i].as_str(), target) {
            assert(nv[i as int] == target@);
            return true;
        }
        i = i + 1;
    }
    false
}

/// The branch decision of a sync pass: the create path exactly when the
/// target collection name is absent from the store's collection list.
pub fn choose_sync_path(names: &Vec<String>, target: &str) -> (r: SyncPath)
    ensures
        (r is CreateFresh) <==> !contains_name(names@.map_values(|n: String| n@), target@),
        (r is UpdateExisting) <==> contains_name(names@.map_values(|n: String| n@), target@),
{
    if collection_exists(names, target) {
        SyncPath::UpdateExisting
    } else {
        SyncPath::CreateFresh
    }
}

/// The guard a sync pass runs before touching anything: the requested
/// collection is the expected one and the snapshot directory's path names
/// it.  A failed guard aborts the run.
pub fn validate_sync_inputs(collection_input: &str, expected: &str, json_data_dir: &str) -> (r:
    bool)
    ensures
        r == (collection_input@ == expected@ && contains_seq(json_data_dir@, expected@)),
{
    let same = str_eq(collection_input, expected);
    if !same {
        return false;
    }
    str_contains(json_data_dir, expected)
}

/// The contents of one store collection, in insertion order: the model
/// that the binary's store calls follow.
pub struct StoreCollection {
    pub docs: Vec<Document>,
}

impl StoreCollection {
    /// An empty collection.
    pub fn new() -> (r: StoreCollection)
        ensures
            r.docs@.len() == 0,
    {
        StoreCollection { docs: Vec::new() }
    }

    /// The index of the first document keyed by `url`, if any.
    pub fn find_url(&self, url: &str) -> (r: Option<usize>)
        ensures
            match r {
                Some(i) => i < self.docs@.len() && i == first_index_with_url(batch_view(
                    self.docs@), url@),
                None => first_index_with_url(batch_view(self.docs@), url@) == -1,
            },
    {
        let ghost s = batch_view(self.docs@);
        let mut i: usize = 0;
        while i < self.docs.len()
            invariant
                0 <= i <= self.docs@.len(),
                s == batch_view(self.docs@),
                s.len() == self.docs@.len(),
                forall|k: int| 0 <= k < i ==> (#[trigger] s[k]).url != url@,
            decreases self.docs@.len() - i,
        {
            if str_eq(self.docs[i].url.as_str(), url) {
                proof {
                    assert(s[i as int].url == url@);
                    lemma_first_index_boundary(s, url@, i as int);
                }
                return Some(i);
            }
            i = i + 1;
        }
        proof {
            lemma_first_index_boundary(s, url@, s.len() as int);
        }
        None
    }

    /// One upsert by natural key: replaces the first document with `d`'s
    /// key in place, or appends `d` when the key is new.
    pub fn upsert(&mut self, d: Document)
        ensures
            batch_view(final(self).docs@) == spec_upsert(batch_view(old(self).docs@), d@),
    {
        let ghost s = batch_view(self.docs@);
        let ghost dv = d@;
        let found = self.find_url(d.url.as_str());
        match found {
            Some(i) => {
                self.docs.set(i, d);
                proof {
                    assert(batch_view(self.docs@) =~= s.update(i as int, dv));
                }
            },
            None => {
                self.docs.push(d);
                proof {
                    assert(batch_view(self.docs@) =~= s.push(dv));
                }
            },
        }
    }

    /// The create path's bulk insert of one batch: appended as it stands,
    /// without deduplication.
    pub fn insert_batch(&mut self, batch: &Vec<Document>)
        ensures
            batch_view(final(self).docs@) == batch_view(old(self).docs@) + batch_view(batch@),
    {
        let ghost s = batch_view(self.docs@);
        let mut k: usize = 0;
        proof {
            assert(batch_view(batch@.subrange(0, 0)) =~= Seq::<DocumentModel>::empty());
            assert(s + batch_view(batch@.subrange(0, 0)) =~= s);
        }
        while k < batch.len()
            invariant
                0 <= k <= batch@.len(),
                batch_view(self.docs@) == s + batch_view(batch@.subrange(0, k as int)),
            decreases batch@.len() - k,
        {
            let ghost before = batch_view(self.docs@);
            self.docs.push(batch[k].duplicate());
            proof {
                assert(batch_view(self.docs@) =~= before.push(batch@[k as int]@));
                assert(batch_view(batch@.subrange(0, k + 1)) =~= batch_view(batch@.subrange(0,
                    k as int)).push(batch@[k as int]@));
                assert(s + batch_view(batch@.subrange(0, k + 1)) =~= (s + batch_view(
                    batch@.subrange(0, k as int))).push(batch@[k as int]@));
            }
            k = k + 1;
        }
        proof {
            assert(batch@.subrange(0, batch@.len() as int) =~= batch@);
        }
    }

    /// The defensive drop that opens the create path.
    pub fn drop_all(&mut self)
        ensures
            final(self).docs@.len() == 0,
    {
        self.docs.clear();
    }

    /// The create path: drop whatever is there, then bulk-insert every
    /// loaded batch.  This path assumes a fresh collection and does not
    /// deduplicate.
    pub fn create_collection(&mut self, batches: &Vec<Vec<Document>>)
        ensures
            batch_view(final(self).docs@) == concat_batches(batches_view(batches@)),
    {
        self.drop_all();
        let ghost bs = batches_view(batches@);
        let mut j: usize = 0;
        proof {
            assert(batch_view(self.docs@) =~= Seq::<DocumentModel>::empty());
            assert(concat_batches(bs.subrange(0, 0)) =~= Seq::<DocumentModel>::empty());
        }
        while j < batches.len()
            invariant
                0 <= j <= batches@.len(),
                bs == batches_view(batches@),
                bs.len() == batches@.len(),
                batch_view(self.docs@) == concat_batches(bs.subrange(0, j as int)),
            decreases batches@.len() - j,
        {
            proof {
                assert(bs.subrange(0, j + 1).drop_last() =~= bs.subrange(0, j as int));
                assert(bs.subrange(0, j + 1).last() == batch_view(batches@[j as int]@));
            }
            self.insert_batch(&batches[j]);
            j = j + 1;
        }
        proof {
            assert(bs.subrange(0, bs.len() as int) =~= bs);
        }
    }

    /// The update path: upsert every record of every loaded batch by its
    /// natural key, in order.
    pub fn update_collection(&mut self, batches: &Vec<Vec<Document>>)
        ensures
            batch_view(final(self).docs@) == spec_upsert_batches(batch_view(old(self).docs@),
                batches_view(batches@)),
    {
        let ghost s0 = batch_view(self.docs@);
        let ghost bs = batches_view(batches@);
        let mut j: usize = 0;
        proof {
            assert(spec_upsert_batches(s0, bs.subrange(0, 0)) == s0);
        }
        while j < batches.len()
            invariant
                0 <= j <= batches@.len(),
                bs == batches_view(batches@),
                bs.len() == batches@.len(),
                batch_view(self.docs@) == spec_upsert_batches(s0, bs.subrange(0, j as int)),
            decreases batches@.len() - j,
        {
            let ghost sj = batch_view(self.docs@);
            let batch = &batches[j];
            let ghost b = batch_view(batch@);
            let mut k: usize = 0;
            proof {
                assert(spec_upsert_all(sj, b.subrange(0, 0)) == sj);
            }
            while k < batch.len()
                invariant
                    0 <= k <= batch@.len(),
                    b == batch_view(batch@),
                    b.len() == batch@.len(),
                    batch_view(self.docs@) == spec_upsert_all(sj, b.subrange(0, k as int)),
                decreases batch@.len() - k,
            {
                proof {
                    assert(b.subrange(0, k + 1).drop_last() =~= b.subrange(0, k as int));
                    assert(b.subrange(0, k + 1).last() == batch@[k as int]@);
                }
                self.upsert(batch[k].duplicate());
                k = k + 1;
            }
            proof {
                assert(b.subrange(0, b.len() as int) =~= b);
                assert(bs.subrange(0, j + 1).drop_last() =~= bs.subrange(0, j as int));
                assert(bs.subrange(0, j + 1).last() == batch_view(batches@[j as int]@));
            }
            j = j + 1;
        }
        proof {
            assert(bs.subrange(0, bs.len() as int) =~= bs);
        }
    }
}

/// Bounds and characterization of the first index of a key.
pub proof fn lemma_first_index_props(s: Seq<DocumentModel>, url: Seq<char>)
    ensures
        -1 <= first_index_with_url(s, url) < s.len(),
        first_index_with_url(s, url) >= 0 ==> s[first_index_with_url(s, url)].url == url,
        forall|k: int|
            0 <= k < first_index_with_url(s, url) ==> (#[trigger] s[k]).url != url,
        first_index_with_url(s, url) == -1 ==> forall|k: int|
            0 <= k < s.len() ==> (#[trigger] s[k]).url != url,
    decreases s.len(),
{
    if s.len() > 0 && s.first().url != url {
        lemma_first_index_props(s.drop_first(), url);
        assert(forall|k: int| 1 <= k < s.len() ==> #[trigger] s[k] == s.drop_first()[k - 1]);
    }
}

/// Bounds and characterization of the last index of a key in a batch.
pub proof fn lemma_last_index_props(b: Seq<DocumentModel>, url: Seq<char>)
    ensures
        -1 <= last_index_with_url(b, url) < b.len(),
        last_index_with_url(b, url) >= 0 ==> b[last_index_with_url(b, url)].url == url,
        forall|k: int|
            last_index_with_url(b, url) < k < b.len() ==> (#[trigger] b[k]).url != url,
        last_index_with_url(b, url) == -1 ==> forall|k: int|
            0 <= k < b.len() ==> (#[trigger] b[k]).url != url,
    decreases b.len(),
{
    if b.len() > 0 && b.last().url != url {
        lemma_last_index_props(b.drop_last(), url);
        assert(forall|k: int| 0 <= k < b.len() - 1 ==> #[trigger] b[k] == b.drop_last()[k]);
    }
}

/// A document with the key in hand means the key is present.
pub proof fn lemma_found_if_present(s: Seq<DocumentModel>, url: Seq<char>, p: int)
    requires
        0 <= p < s.len(),
        s[p].url == url,
    ensures
        has_url(s, url),
{
    lemma_first_index_props(s, url);
}

/// The result of one pass of the update path over batch `b` on a state
/// that already holds every key of `b`: each first occurrence of a batch
/// key is overwritten with the batch's last record for that key, and
/// nothing else moves.
pub open spec fn overwritten(x: Seq<DocumentModel>, b: Seq<DocumentModel>) -> Seq<
    DocumentModel,
> {
    Seq::new(x.len(), |p: int|
        (if batch_has_url(b, x[p].url) && p == first_index_with_url(x, x[p].url) {
            b[last_index_with_url(b, x[p].url)]
        } else {
            x[p]
        }))
}

/// One pass of the update path on a state holding every key of the batch
/// is exactly [`overwritten`].
pub proof fn lemma_upsert_all_on_present(x: Seq<DocumentModel>, b: Seq<DocumentModel>)
    requires
        forall|k: int| 0 <= k < b.len() ==> has_url(x, (#[trigger] b[k]).url),
    ensures
        spec_upsert_all(x, b) == overwritten(x, b),
    decreases b.len(),
{
    if b.len() == 0 {
        assert forall|p: int| 0 <= p < x.len() implies overwritten(x, b)[p] == x[p] by {
            lemma_last_index_props(b, x[p].url);
        }
        assert(spec_upsert_all(x, b) =~= overwritten(x, b));
    } else {
        let bp = b.drop_last();
        let l = b.last();
        assert(forall|k: int| 0 <= k < bp.len() ==> #[trigger] bp[k] == b[k]);
        lemma_upsert_all_on_present(x, bp);
        let z = spec_upsert_all(x, bp);
        assert(z == overwritten(x, bp));
        assert(z.len() == x.len());
        assert forall|p: int| 0 <= p < x.len() implies (#[trigger] z[p]).url == x[p].url by {
            if batch_has_url(bp, x[p].url) && p == first_index_with_url(x, x[p].url) {
                lemma_last_index_props(bp, x[p].url);
            }
        }
        // The last record's key is present in x, hence in z at the same
        // first index.
        assert(has_url(x, l.url));
        let j = first_index_with_url(x, l.url);
        lemma_first_index_props(x, l.url);
        assert(z[j].url == l.url);
        lemma_first_index_boundary(z, l.url, j);
        assert(first_index_with_url(z, l.url) == j);
        lemma_found_if_present(z, l.url, j);
        let y = spec_upsert(z, l);
        assert(y == z.update(j, l));
        assert forall|p: int| 0 <= p < x.len() implies y[p] == overwritten(x, b)[p] by {
            let u = x[p].url;
            if p == j {
                assert(u == l.url);
                assert(b[b.len() - 1] == l);
                assert(last_index_with_url(b, l.url) == b.len() - 1);
                assert(batch_has_url(b, u));
                assert(overwritten(x, b)[p] == l);
            } else {
                assert(y[p] == z[p]);
                if u == l.url {
                    // Not the first occurrence of this key: untouched in
                    // either pass.
                    assert(overwritten(x, bp)[p] == x[p]);
                    assert(overwritten(x, b)[p] == x[p]);
                } else {
                    assert(last_index_with_url(b, u) == last_index_with_url(bp, u));
                    if batch_has_url(bp, u) && p == first_index_with_url(x, u) {
                        lemma_last_index_props(bp, u);
                        assert(overwritten(x, b)[p] == b[last_index_with_url(bp, u)]);
                        assert(b[last_index_with_url(bp, u)] == bp[last_index_with_url(bp, u)]);
                    }
                }
            }
        }
        assert(y =~= overwritten(x, b));
    }
}

/// After one pass of the update path, every key of the batch is present.
pub proof fn lemma_upsert_all_urls_present(s: Seq<DocumentModel>, b: Seq<DocumentModel>)
    ensures
        forall|k: int|
            0 <= k < b.len() ==> has_url(spec_upsert_all(s, b), (#[trigger] b[k]).url),
    decreases b.len(),
{
    if b.len() > 0 {
        let bp = b.drop_last();
        let l = b.last();
        assert(forall|k: int| 0 <= k < bp.len() ==> #[trigger] bp[k] == b[k]);
        lemma_upsert_all_urls_present(s, bp);
        let z = spec_upsert_all(s, bp);
        let y = spec_upsert(z, l);
        lemma_first_index_props(z, l.url);
        assert forall|k: int| 0 <= k < b.len() implies has_url(y, (#[trigger] b[k]).url) by {
            let u = b[k].url;
            if has_url(z, l.url) {
                let j = first_index_with_url(z, l.url);
                assert(y == z.update(j, l));
                if u == l.url {
                    lemma_found_if_present(y, u, j);
                } else {
                    assert(k < b.len() - 1);
                    assert(bp[k] == b[k]);
                    assert(has_url(z, bp[k].url));
                    let p = first_index_with_url(z, u);
                    lemma_first_index_props(z, u);
                    assert(z[p].url == u);
                    assert(p != j);
                    lemma_found_if_present(y, u, p);
                }
            } else {
                assert(y == z.push(l));
                if u == l.url {
                    lemma_found_if_present(y, u, z.len() as int);
                } else {
                    assert(k < b.len() - 1);
                    assert(bp[k] == b[k]);
                    assert(has_url(z, bp[k].url));
                    let p = first_index_with_url(z, u);
                    lemma_first_index_props(z, u);
                    lemma_found_if_present(y, u, p);
                }
            }
        }
    }
}

/// After one pass of the update path, the first document at each batch
/// key equals the batch's last record with that key, field for field.
pub proof fn lemma_upsert_all_takes_last(s: Seq<DocumentModel>, b: Seq<DocumentModel>)
    ensures
        forall|k: int|
            0 <= k < b.len() ==> {
                let y = spec_upsert_all(s, b);
                let u = (#[trigger] b[k]).url;
                has_url(y, u) && y[first_index_with_url(y, u)] == b[last_index_with_url(b, u)]
            },
    decreases b.len(),
{
    lemma_upsert_all_urls_present(s, b);
    if b.len() > 0 {
        let bp = b.drop_last();
        let l = b.last();
        assert(forall|k: int| 0 <= k < bp.len() ==> #[trigger] bp[k] == b[k]);
        lemma_upsert_all_takes_last(s, bp);
        lemma_upsert_all_urls_present(s, bp);
        let z = spec_upsert_all(s, bp);
        let y = spec_upsert(z, l);
        lemma_first_index_props(z, l.url);
        assert forall|k: int| 0 <= k < b.len() implies {
            let u = (#[trigger] b[k]).url;
            has_url(y, u) && y[first_index_with_url(y, u)] == b[last_index_with_url(b, u)]
        } by {
            let u = b[k].url;
            lemma_last_index_props(b, u);
            if u == l.url {
                assert(last_index_with_url(b, u) == b.len() - 1);
                if has_url(z, u) {
                    let j = first_index_with_url(z, u);
                    lemma_first_index_props(z, u);
                    assert(y == z.update(j, l));
                    assert(y[j].url == u);
                    lemma_first_index_boundary(y, u, j);
                    assert(y[j] == l);
                } else {
                    assert(y == z.push(l));
                    lemma_first_index_props(z, u);
                    lemma_first_index_boundary(y, u, z.len() as int);
                }
            } else {
                assert(k < b.len() - 1);
                assert(last_index_with_url(b, u) == last_index_with_url(bp, u));
                lemma_last_index_props(bp, u);
                assert(b[last_index_with_url(bp, u)] == bp[last_index_with_url(bp, u)]);
                let p = first_index_with_url(z, u);
                lemma_first_index_props(z, u);
                assert(z[p] == bp[last_index_with_url(bp, u)]);
                if has_url(z, l.url) {
                    let j = first_index_with_url(z, l.url);
                    assert(y == z.update(j, l));
                    assert(j != p);
                    assert(y[p] == z[p]);
                    assert(y[p].url == u);
                    assert(forall|q: int| 0 <= q < p ==> (#[trigger] y[q]).url != u);
                    lemma_first_index_boundary(y, u, p);
                } else {
                    assert(y == z.push(l));
                    assert(y[p] == z[p]);
                    assert(forall|q: int| 0 <= q < p ==> (#[trigger] y[q]).url != u);
                    lemma_first_index_boundary(y, u, p);
                }
            }
        }
    }
}

/// One upsert keeps keys unique.
pub proof fn lemma_upsert_preserves_unique(s: Seq<DocumentModel>, d: DocumentModel)
    requires
        unique_urls(s),
    ensures
        unique_urls(spec_upsert(s, d)),
{
    lemma_first_index_props(s, d.url);
    let y = spec_upsert(s, d);
    if has_url(s, d.url) {
        let j = first_index_with_url(s, d.url);
        assert forall|i: int, k: int|
            0 <= i < k < y.len() implies (#[trigger] y[i]).url != (#[trigger] y[k]).url by {
            assert(s[i].url != s[k].url);
            assert(y[i].url == s[i].url);
            assert(y[k].url == s[k].url);
        }
    } else {
        assert forall|i: int, k: int|
            0 <= i < k < y.len() implies (#[trigger] y[i]).url != (#[trigger] y[k]).url by {
            if k < s.len() {
                assert(s[i].url != s[k].url);
            } else {
                assert(y[k] == d);
                assert(s[i].url != d.url);
            }
        }
    }
}

/// A full pass of the update path keeps keys unique.
pub proof fn lemma_upsert_all_preserves_unique(s: Seq<DocumentModel>, b: Seq<DocumentModel>)
    requires
        unique_urls(s),
    ensures
        unique_urls(spec_upsert_all(s, b)),
    decreases b.len(),
{
    if b.len() > 0 {
        lemma_upsert_all_preserves_unique(s, b.drop_last());
        lemma_upsert_preserves_unique(spec_upsert_all(s, b.drop_last()), b.last());
    }
}

/// Upserting a concatenation is upserting the parts in turn.
pub proof fn lemma_upsert_all_append(s: Seq<DocumentModel>, a: Seq<DocumentModel>, b: Seq<
    DocumentModel,
>)
    ensures
        spec_upsert_all(s, a + b) == spec_upsert_all(spec_upsert_all(s, a), b),
    decreases b.len(),
{
    if b.len() == 0 {
        assert(a + b =~= a);
    } else {
        lemma_upsert_all_append(s, a, b.drop_last());
        assert((a + b).drop_last() =~= a + b.drop_last());
        assert((a + b).last() == b.last());
    }
}

/// A batched pass of the update path equals one flat pass over the
/// loaded documents laid end to end.
pub proof fn lemma_upsert_batches_flatten(s: Seq<DocumentModel>, bs: Seq<Seq<DocumentModel>>)
    ensures
        spec_upsert_batches(s, bs) == spec_upsert_all(s, concat_batches(bs)),
    decreases bs.len(),
{
    if bs.len() > 0 {
        lemma_upsert_batches_flatten(s, bs.drop_last());
        lemma_upsert_all_append(s, concat_batches(bs.drop_last()), bs.last());
    }
}

/// Law: one pass of the update path absorbs the batch — a second pass
/// with the identical batch leaves the collection exactly as it stood.
pub proof fn lemma_update_path_idempotent(s: Seq<DocumentModel>, b: Seq<DocumentModel>)
    ensures
        spec_upsert_all(spec_upsert_all(s, b), b) == spec_upsert_all(s, b),
{
    let r = spec_upsert_all(s, b);
    lemma_upsert_all_urls_present(s, b);
    lemma_upsert_all_takes_last(s, b);
    lemma_upsert_all_on_present(r, b);
    assert forall|p: int| 0 <= p < r.len() implies overwritten(r, b)[p] == r[p] by {
        let u = r[p].url;
        if batch_has_url(b, u) && p == first_index_with_url(r, u) {
            lemma_last_index_props(b, u);
            let li = last_index_with_url(b, u);
            assert(b[li].url == u);
            assert(has_url(r, b[li].url) && r[first_index_with_url(r, b[li].url)] == b[
                last_index_with_url(b, b[li].url)]);
        }
    }
    assert(spec_upsert_all(r, b) =~= r);
}

/// Law: running StoreSync's update path twice over the identical loaded
/// batches leaves the collection unchanged after the first run.
pub proof fn lemma_store_sync_idempotent(s: Seq<DocumentModel>, bs: Seq<Seq<DocumentModel>>)
    ensures
        spec_upsert_batches(spec_upsert_batches(s, bs), bs) == spec_upsert_batches(s, bs),
{
    let flat = concat_batches(bs);
    lemma_upsert_batches_flatten(s, bs);
    lemma_upsert_batches_flatten(spec_upsert_all(s, flat), bs);
    lemma_update_path_idempotent(s, flat);
}

/// Law: the update path guarantees at most one document per distinct key
/// whenever the collection started that way (an empty one does).
pub proof fn lemma_store_sync_unique_keys(s: Seq<DocumentModel>, bs: Seq<Seq<DocumentModel>>)
    requires
        unique_urls(s),
    ensures
        unique_urls(spec_upsert_batches(s, bs)),
{
    lemma_upsert_batches_flatten(s, bs);
    lemma_upsert_all_preserves_unique(s, concat_batches(bs));
}

/// Law: after the update path, the document stored at the key of any
/// loaded record is the last loaded record with that key, field for
/// field identical to the input.
pub proof fn lemma_store_sync_matches_input(s: Seq<DocumentModel>, bs: Seq<Seq<DocumentModel>>)
    ensures
        forall|k: int|
            0 <= k < concat_batches(bs).len() ==> {
                let y = spec_upsert_batches(s, bs);
                let u = (#[trigger] concat_batches(bs)[k]).url;
                has_url(y, u) && y[first_index_with_url(y, u)] == concat_batches(bs)[
                    last_index_with_url(concat_batches(bs), u)]
            },
{
    lemma_upsert_batches_flatten(s, bs);
    lemma_upsert_all_takes_last(s, concat_batches(bs));
}

/// A search that saw no key up to `i` and a key at `i` (or ran out) pins
/// the first index down.
pub proof fn lemma_first_index_boundary(s: Seq<DocumentModel>, url: Seq<char>, i: int)
    requires
        0 <= i <= s.len(),
        forall|k: int| 0 <= k < i ==> (#[trigger] s[k]).url != url,
        i < s.len() ==> s[i].url == url,
    ensures
        i < s.len() ==> first_index_with_url(s, url) == i,
        i == s.len() ==> first_index_with_url(s, url) == -1,
    decreases s.len(),
{
    if s.len() > 0 {
        if s.first().url == url {
            assert(i == 0);
        } else {
            assert(forall|k: int|
                0 <= k < i - 1 ==> (#[trigger] s.drop_first()[k]).url != url) by {
                assert(forall|k: int| 0 <= k < i - 1 ==> s.drop_first()[k] == s[k + 1]);
            }
            if i < s.len() {
                assert(s.drop_first()[i - 1] == s[i]);
            }
            lemma_first_index_boundary(s.drop_first(), url, i - 1);
        }
    }
}

} // verus!
