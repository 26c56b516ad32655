//! The set of pages already fetched.
//!
//! Two URLs are the same page exactly when they are the same text. The store
//! keeps its URLs in the order in which they first came, which is the order
//! in which a snapshot holds them, and an index over the same URLs for lookup.

use crate::crawl::snapshot::{
    decode_urls, encode_urls, fits, is_framed, lemma_snapshot_round_trip, snapshot_decoding,
    snapshot_encoding, snapshot_payloads,
};
use vstd::hash_set::StringHashSet;
use vstd::prelude::*;
use vstd::utf8::encode_utf8;

verus! {

/// Why bytes are no snapshot of a store.
#[derive(Clone, Copy, Debug, PartialEq, Eq, Structural)]
pub enum SnapshotError {
    /// A length in the bytes is damaged or reaches beyond them.
    BadFraming,
    /// One of the strings in the bytes is no UTF-8.
    BadText,
}

/// `urls` without repetitions: each URL where it first stands.
pub open spec fn distinct(urls: Seq<Seq<char>>) -> Seq<Seq<char>>
    decreases urls.len(),
{
    if urls.len() == 0 {
        Seq::empty()
    } else {
        let before = distinct(urls.drop_last());
        if before.contains(urls.last()) {
            before
        } else {
            before.push(urls.last())
        }
    }
}

/// Taking the repetitions out keeps the URLs that there are, each once; a
/// list without repetitions stays as it is.
pub proof fn lemma_distinct(urls: Seq<Seq<char>>)
    ensures
        distinct(urls).no_duplicates(),
        distinct(urls).to_set() == urls.to_set(),
        urls.no_duplicates() ==> distinct(urls) == urls,
    decreases urls.len(),
{
    if urls.len() > 0 {
        let head = urls.drop_last();
        lemma_distinct(head);
        assert(urls =~= head.push(urls.last()));
        head.lemma_push_to_set_commute(urls.last());
        if !distinct(head).contains(urls.last()) {
            distinct(head).lemma_push_to_set_commute(urls.last());
        }
    }
}

/// The URLs of the pages already fetched.
pub struct VisitedStore {
    /// Every URL once, in the order of first insertion.
    urls: Vec<String>,
    /// The same URLs, for lookup.
    index: StringHashSet,
}

impl View for VisitedStore {
    type V = Set<Seq<char>>;

    /// The URLs in the store.
    closed spec fn view(&self) -> Set<Seq<char>> {
        self.order().to_set()
    }
}

impl VisitedStore {
    /// The URLs in the store, in the order in which they first came.
    pub closed spec fn order(&self) -> Seq<Seq<char>> {
        self.urls.deep_view()
    }

    /// The store is in order: no URL stands twice in it, its index holds
    /// what its list holds, and each URL's length in bytes is a length that
    /// memory can have.
    pub closed spec fn wf(&self) -> bool {
        &&& self.order().no_duplicates()
        &&& self.index@ == self.order().to_set()
        &&& forall|i: int|
            0 <= i < self.order().len() ==> encode_utf8(#[trigger] self.order()[i]).len()
                <= usize::MAX
    }

    /// What a well-formed store's view and order have to do with each other.
    pub proof fn lemma_view(&self)
        requires
            self.wf(),
        ensures
            self@ == self.order().to_set(),
            self@.finite(),
            self@.len() == self.order().len(),
            self.order().no_duplicates(),
            self.order().len() <= usize::MAX,
            fits(self.order()),
    {
        broadcast use vstd::seq_lib::seq_to_set_is_finite;

        self.order().unique_seq_to_set();
        assert(self.order().len() == self.urls.len());
    }

    /// The empty store.
    pub fn new() -> (store: VisitedStore)
        ensures
            store.wf(),
            store@ == Set::<Seq<char>>::empty(),
            store.order() == Seq::<Seq<char>>::empty(),
    {
        let store = VisitedStore { urls: Vec::new(), index: StringHashSet::new() };
        assert(store.order().to_set() =~= Set::empty());
        store
    }

    /// Whether `url` is in the store.
    pub fn contains(&self, url: &str) -> (found: bool)
        requires
            self.wf(),
        ensures
            found == self@.contains(url@),
    {
        self.index.contains(url)
    }

    /// The number of URLs in the store.
    pub fn len(&self) -> (count: usize)
        requires
            self.wf(),
        ensures
            count == self@.len(),
            count == self.order().len(),
    {
        proof {
            self.lemma_view();
        }
        self.urls.len()
    }

    /// Puts `url` into the store. A URL that is in it already changes nothing.
    pub fn insert(&mut self, url: String)
        requires
            old(self).wf(),
        ensures
            final(self).wf(),
            final(self)@ == old(self)@.insert(url@),
            final(self).order() == if old(self)@.contains(url@) {
                old(self).order()
            } else {
                old(self).order().push(url@)
            },
    {
        if !self.index.contains(url.as_str()) {
            let ghost before = self.order();
            // A text in memory has a length in bytes that fits a machine word;
            // reading the length is what tells so.
            let _bytes: usize = url.as_str().as_bytes().len();
            self.urls.push(url.clone());
            self.index.insert(url);
            proof {
                assert(self.order() =~= before.push(url@));
                before.lemma_push_to_set_commute(url@);
            }
        }
    }

    /// The store of the URLs in `urls`, each once, in the order in which
    /// they first stand there.
    pub fn from_urls(urls: &Vec<String>) -> (store: VisitedStore)
        ensures
            store.wf(),
            store@ == urls.deep_view().to_set(),
            store.order() == distinct(urls.deep_view()),
    {
        let mut store = VisitedStore::new();
        let mut i: usize = 0;
        while i < urls.len()
            invariant
                i <= urls.len(),
                store.wf(),
                store.order() == distinct(urls.deep_view().take(i as int)),
            decreases urls.len() - i,
        {
            proof {
                assert(urls.deep_view().take(i + 1).drop_last() =~= urls.deep_view().take(i as int));
                store.lemma_view();
            }
            store.insert(urls[i].clone());
            i += 1;
        }
        proof {
            assert(urls.deep_view().take(i as int) =~= urls.deep_view());
            lemma_distinct(urls.deep_view());
            store.lemma_view();
        }
        store
    }

    /// The bytes of a snapshot of the store: its URLs in their order.
    /// `deserialize` reads them back as the same store.
    pub fn serialize(&self) -> (bytes: Vec<u8>)
        requires
            self.wf(),
        ensures
            bytes@ == snapshot_encoding(self.order()),
            snapshot_decoding(bytes@) == Some(self.order()),
    {
        proof {
            self.lemma_round_trip();
        }
        encode_urls(&self.urls)
    }

    /// The store that `bytes` are a snapshot of. The bytes are refused where
    /// they do not frame a list of strings, and where one of the strings is
    /// no UTF-8; a URL that stands in them more than once is taken once.
    /// Bytes behind the list are not looked at.
    pub fn deserialize(bytes: &[u8]) -> (loaded: Result<VisitedStore, SnapshotError>)
        ensures
            match snapshot_decoding(bytes@) {
                Some(urls) => loaded matches Ok(store) && store.wf() && store@ == urls.to_set()
                    && store.order() == distinct(urls),
                None => loaded matches Err(error) && error == if snapshot_payloads(bytes@) is None {
                    SnapshotError::BadFraming
                } else {
                    SnapshotError::BadText
                },
            },
    {
        if !is_framed(bytes) {
            return Err(SnapshotError::BadFraming);
        }
        match decode_urls(bytes) {
            Ok(urls) => Ok(VisitedStore::from_urls(&urls)),
            Err(_) => Err(SnapshotError::BadText),
        }
    }

    /// Writing a store and reading it back gives the store: the bytes of its
    /// snapshot hold its URLs, each once, in their order.
    pub proof fn lemma_round_trip(&self)
        requires
            self.wf(),
        ensures
            snapshot_decoding(snapshot_encoding(self.order())) == Some(self.order()),
            distinct(self.order()) == self.order(),
            self.order().to_set() == self@,
    {
        self.lemma_view();
        lemma_snapshot_round_trip(self.order());
        lemma_distinct(self.order());
    }
}

} // verus!
