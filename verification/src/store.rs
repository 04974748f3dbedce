//! The store: tokens and URLs, one to one, with the document that mirrors
//! them on disk.

use crate::base58::{base58, from_base58, lemma_decode_encode, to_base58};
use crate::bimap::{
    all_pairs, contains_first, count, earliest_first, empty_map, first_of, has_first, has_second,
    insert_pair, map_of, pairs, remove_first, second_of, Entries,
};
use crate::ids::draw;
use crate::json::{
    distinct_names, json_document, json_object_text, parse_document, render_object, JsonDocument,
    JsonMember, JsonShape, Members,
};
use bidir_map::BidirMap;
use vstd::hash_set::StringHashSet;
use vstd::prelude::*;

verus! {

/// The least identifier that a new token is made from.
pub const ID_LOW: u32 = 3364;

/// The bound of the identifiers, itself left out.
pub const ID_HIGH: u32 = 113164;

/// How often a new identifier is drawn at random before the store looks for
/// a free one in order.
pub const MAX_DRAWS: u32 = 64;

/// No token and no URL stands in two entries.
pub open spec fn one_to_one(s: Entries) -> bool {
    forall|i: int, j: int|
        0 <= i < j < s.len() ==> (#[trigger] s[i]).0 != (#[trigger] s[j]).0 && s[i].1 != s[j].1
}

/// The URL that stands under `token` in `s`.
pub open spec fn url_of(s: Entries, token: Seq<char>) -> Option<Seq<char>> {
    if has_first(s, token) {
        Some(s[choose|i: int| 0 <= i < s.len() && (#[trigger] s[i]).0 == token].1)
    } else {
        None
    }
}

/// The token under which `url` stands in `s`.
pub open spec fn token_of(s: Entries, url: Seq<char>) -> Option<Seq<char>> {
    if has_second(s, url) {
        Some(s[choose|i: int| 0 <= i < s.len() && (#[trigger] s[i]).1 == url].0)
    } else {
        None
    }
}

/// Why a document cannot be loaded.
#[derive(Clone, Copy, Debug, PartialEq, Eq)]
pub enum LoadError {
    /// The text is no JSON document.
    Syntax,
    /// The document is no JSON object.
    NotAnObject,
    /// The value of a member is no string.
    NonStringValue,
    /// Two members have one name: the token would stand for two URLs.
    DuplicateToken,
    /// Two members have one value: the URL would stand under two tokens.
    DuplicateUrl,
}

/// What is wrong with member `i` of `members`, the members before it taken
/// as given: its value is no string, or its name or its value stands in an
/// earlier member already.
pub open spec fn fault_at(members: Members, i: int) -> Option<LoadError> {
    if members[i].1 is None {
        Some(LoadError::NonStringValue)
    } else if exists|j: int| 0 <= j < i && (#[trigger] members[j]).0 == members[i].0 {
        Some(LoadError::DuplicateToken)
    } else if exists|j: int| 0 <= j < i && (#[trigger] members[j]).1 == members[i].1 {
        Some(LoadError::DuplicateUrl)
    } else {
        None
    }
}

/// Nothing is wrong with the first `n` members.
pub open spec fn sound_before(members: Members, n: int) -> bool {
    forall|i: int| 0 <= i < n ==> (#[trigger] fault_at(members, i)) is None
}

/// The place of the first member with which something is wrong.
pub open spec fn first_fault(members: Members) -> int {
    choose|i: int|
        0 <= i < members.len() && sound_before(members, i) && (#[trigger] fault_at(
            members,
            i,
        )) is Some
}

/// The members as entries: each name a token, each value its URL.
pub open spec fn entries_of(members: Members) -> Entries {
    Seq::new(members.len(), |i: int| (members[i].0, members[i].1->0))
}

/// What loading a document gives: the members of an object as entries where
/// nothing is wrong with any of them, and else what is wrong with the first
/// that has a fault.
pub open spec fn loaded(document: JsonShape) -> Result<Entries, LoadError> {
    match document {
        JsonShape::Other => Err(LoadError::NotAnObject),
        JsonShape::Object(members) => if sound_before(members, members.len() as int) {
            Ok(entries_of(members))
        } else {
            Err(fault_at(members, first_fault(members))->0)
        },
    }
}

/// What loading a text gives: what loading its document gives, where it
/// holds one.
pub open spec fn loaded_text(document: Option<JsonShape>) -> Result<Entries, LoadError> {
    match document {
        Some(document) => loaded(document),
        None => Err(LoadError::Syntax),
    }
}

/// What loads, is one to one.
pub proof fn lemma_loaded_one_to_one(document: JsonShape)
    ensures
        loaded(document) matches Ok(entries) ==> one_to_one(entries),
{
    match document {
        JsonShape::Object(members) => {
            if sound_before(members, members.len() as int) {
                let entries = entries_of(members);
                assert forall|i: int, j: int| 0 <= i < j < entries.len() implies (
                #[trigger] entries[i]).0 != (#[trigger] entries[j]).0 && entries[i].1
                    != entries[j].1 by {
                    assert(fault_at(members, j) is None);
                    assert(fault_at(members, i) is None);
                }
            }
        },
        JsonShape::Other => {},
    }
}

/// The map that holds the members of `document`. The names and the values
/// that were seen are kept in two sets, so that each member is looked at
/// once.
fn load_document(document: &JsonDocument) -> (outcome: Result<BidirMap<String, String>, LoadError>)
    ensures
        match outcome {
            Ok(map) => loaded(document@) == Ok::<_, LoadError>(pairs(map)) && one_to_one(
                pairs(map),
            ),
            Err(error) => loaded(document@) == Err::<Entries, _>(error),
        },
        outcome matches Err(LoadError::DuplicateToken) ==> (document@ matches JsonShape::Object(
            members,
        ) && !distinct_names(members)),
{
    let members = match document {
        JsonDocument::Object(members) => members,
        JsonDocument::Other => {
            return Err(LoadError::NotAnObject);
        },
    };
    let ghost shape = document@->Object_0;
    let mut entries: Vec<(String, String)> = Vec::new();
    let mut tokens = StringHashSet::new();
    let mut urls = StringHashSet::new();
    let mut i: usize = 0;
    while i < members.len()
        invariant
            i <= members.len(),
            document@ == JsonShape::Object(shape),
            shape.len() == members@.len(),
            forall|k: int| 0 <= k < shape.len() ==> shape[k] == (members@[k].0@, members@[k].1@),
            sound_before(shape, i as int),
            entries@.len() == i,
            forall|k: int|
                0 <= k < i ==> (#[trigger] shape[k]) == (entries@[k].0@, Some(entries@[k].1@)),
            forall|token: Seq<char>|
                tokens@.contains(token) <==> exists|j: int|
                    0 <= j < i && (#[trigger] shape[j]).0 == token,
            forall|url: Seq<char>|
                urls@.contains(url) <==> exists|j: int|
                    0 <= j < i && (#[trigger] shape[j]).1 == Some(url),
        decreases members.len() - i,
    {
        let name: &String = &members[i].0;
        let url: &String = match &members[i].1 {
            JsonMember::Text(url) => url,
            JsonMember::Other => {
                return Err(LoadError::NonStringValue);
            },
        };
        if tokens.contains(name.as_str()) {
            assert(fault_at(shape, i as int) == Some(LoadError::DuplicateToken));
            return Err(LoadError::DuplicateToken);
        }
        if urls.contains(url.as_str()) {
            assert(fault_at(shape, i as int) == Some(LoadError::DuplicateUrl));
            return Err(LoadError::DuplicateUrl);
        }
        tokens.insert(name.clone());
        urls.insert(url.clone());
        entries.push((name.clone(), url.clone()));
        i = i + 1;
    }
    let map = map_of(entries);
    proof {
        assert(pairs(map) == entries_of(shape));
        lemma_loaded_one_to_one(document@);
    }
    Ok(map)
}

/// Why a URL got no token.
#[derive(Clone, Copy, Debug, PartialEq, Eq)]
pub enum AddError {
    /// Every token that an identifier of the range gives is taken.
    Exhausted,
    /// The new entry could not be written down, and was taken back.
    NotPersisted,
}

/// The serializer refused to write the document.
#[derive(Clone, Copy, Debug, PartialEq, Eq)]
pub struct SaveError;

/// What adding a URL gives.
#[derive(Debug, PartialEq, Eq)]
pub struct Added {
    /// The token of the URL.
    pub token: String,
    /// Where the URL is new to the store: the document that now mirrors the
    /// store, to be written to the store's file. `None` where the URL had
    /// its token already, and nothing is to be written.
    pub document: Option<String>,
}

/// `id` is an identifier of the range whose token stands in no entry of `s`.
pub open spec fn is_free(s: Entries, id: nat) -> bool {
    ID_LOW <= id < ID_HIGH && !has_first(s, base58(id))
}

/// No identifier of the range is free.
pub open spec fn exhausted(s: Entries) -> bool {
    forall|id: nat| !is_free(s, id)
}

/// One of the first `n` entries of `s` stands under the token of `id`.
spec fn marks(s: Entries, n: int, id: int) -> bool {
    exists|j: int| 0 <= j < n && j < s.len() && (#[trigger] s[j]).0 == base58(id as nat)
}

/// The least free identifier.
pub open spec fn least_free(s: Entries) -> nat {
    choose|id: nat| is_free(s, id) && forall|lower: nat| lower < id ==> !is_free(s, lower)
}

/// The identifier that a new entry gets where `candidate` is proposed for it:
/// `candidate` where it is free, and else the least free identifier.
pub open spec fn chosen_id(s: Entries, candidate: nat) -> nat {
    if is_free(s, candidate) {
        candidate
    } else {
        least_free(s)
    }
}

/// For some free identifier, the serializer writes no document for the
/// entries `s` with `url` behind them under the token of that identifier.
pub open spec fn unwritable(s: Entries, url: Seq<char>) -> bool {
    exists|id: nat|
        is_free(s, id) && json_object_text(s.push((#[trigger] base58(id), url))) is None
}

/// How adding `url` takes a store from the entries `before` to the entries
/// `after`, and what it hands back.
///
/// A URL of the store keeps its token, and the store stays as it is. A new
/// URL gets the token of a free identifier and goes behind the other entries,
/// and the document of the entries is handed back with the token. Where no
/// identifier is free, or the serializer writes no document for the entries
/// with the new one behind them, the store stays as it is.
pub open spec fn add_post(
    before: Entries,
    url: Seq<char>,
    outcome: Result<Added, AddError>,
    after: Entries,
) -> bool {
    match outcome {
        Ok(added) => match added.document {
            None => token_of(before, url) == Some(added.token@) && after == before,
            Some(document) => {
                &&& !has_second(before, url)
                &&& exists|id: nat| is_free(before, id) && added.token@ == #[trigger] base58(id)
                &&& after == before.push((added.token@, url))
                &&& json_object_text(after) == Some(document@)
            },
        },
        Err(AddError::Exhausted) => {
            &&& !has_second(before, url)
            &&& exhausted(before)
            &&& after == before
        },
        Err(AddError::NotPersisted) => {
            &&& !has_second(before, url)
            &&& unwritable(before, url)
            &&& after == before
        },
    }
}

/// The entries without the one that stands under `token`: the last entry
/// takes its place.
pub open spec fn without_token(s: Entries, token: Seq<char>) -> Entries {
    if has_first(s, token) {
        s.update(choose|i: int| earliest_first(s, token, i), s.last()).drop_last()
    } else {
        s
    }
}

/// A new entry whose token and URL are both new keeps the entries one to one.
pub(crate) proof fn lemma_push_one_to_one(s: Entries, token: Seq<char>, url: Seq<char>)
    requires
        one_to_one(s),
        !has_first(s, token),
        !has_second(s, url),
    ensures
        one_to_one(s.push((token, url))),
{
}

/// Taking back the entry that was added last gives the entries as they were.
pub(crate) proof fn lemma_push_then_remove(s: Entries, token: Seq<char>, url: Seq<char>)
    requires
        !has_first(s, token),
    ensures
        has_first(s.push((token, url)), token),
        forall|i: int| earliest_first(s.push((token, url)), token, i) ==> i == s.len(),
        forall|i: int|
            earliest_first(s.push((token, url)), token, i) ==> s.push((token, url)).update(
                i,
                s.push((token, url)).last(),
            ).drop_last() == s,
        without_token(s.push((token, url)), token) == s,
{
    assert(earliest_first(s.push((token, url)), token, s.len() as int));
}

/// The token↔URL store.
pub struct UrlMap {
    path: String,
    urls: BidirMap<String, String>,
}

impl View for UrlMap {
    type V = Entries;

    /// The entries, each a token and its URL, in the order in which the
    /// store keeps them.
    closed spec fn view(&self) -> Entries {
        pairs(self.urls)
    }
}

impl UrlMap {
    /// The store's invariant: its entries are one to one.
    #[verifier::type_invariant]
    pub open spec fn wf(&self) -> bool {
        one_to_one(self@)
    }

    /// The path of the file that mirrors the store.
    pub closed spec fn spec_path(&self) -> Seq<char> {
        self.path@
    }

    /// The path of the file that mirrors the store.
    pub fn path(&self) -> (path: &str)
        ensures
            path@ == self.spec_path(),
    {
        self.path.as_str()
    }

    /// The number of entries.
    pub fn len(&self) -> (n: usize)
        ensures
            n == self@.len(),
    {
        count(&self.urls)
    }

    /// The store that `document` describes, mirrored by the file at `path`.
    pub fn from_document(path: &str, document: &JsonDocument) -> (outcome: Result<
        UrlMap,
        LoadError,
    >)
        ensures
            match outcome {
                Ok(store) => loaded(document@) == Ok::<_, LoadError>(store@) && store.spec_path()
                    == path@,
                Err(error) => loaded(document@) == Err::<Entries, _>(error),
            },
            outcome matches Err(LoadError::DuplicateToken) ==> (document@ matches JsonShape::Object(
                members,
            ) && !distinct_names(members)),
    {
        match load_document(document) {
            Ok(urls) => Ok(UrlMap { path: path.to_owned(), urls }),
            Err(error) => Err(error),
        }
    }

    /// The store that `text`, the content of the file at `path`, describes.
    /// No text has two members of one name once it is parsed, so that
    /// `DuplicateToken` never comes of a text.
    pub fn new(path: &str, text: &str) -> (outcome: Result<UrlMap, LoadError>)
        ensures
            match outcome {
                Ok(store) => loaded_text(json_document(text@)) == Ok::<_, LoadError>(store@)
                    && store.spec_path() == path@,
                Err(error) => loaded_text(json_document(text@)) == Err::<
                    Entries,
                    _,
                >(error),
            },
            !(outcome matches Err(LoadError::DuplicateToken)),
    {
        match parse_document(text) {
            Ok(document) => UrlMap::from_document(path, &document),
            Err(_) => Err(LoadError::Syntax),
        }
    }

    /// Puts the entries that `text` describes in the place of the store's
    /// own. A text that cannot be loaded leaves the store as it is.
    pub fn load_urls(&mut self, text: &str) -> (outcome: Result<(), LoadError>)
        ensures
            final(self).spec_path() == old(self).spec_path(),
            match outcome {
                Ok(_) => loaded_text(json_document(text@)) == Ok::<_, LoadError>(final(self)@),
                Err(error) => loaded_text(json_document(text@)) == Err::<
                    Entries,
                    _,
                >(error) && final(self)@ == old(self)@,
            },
            !(outcome matches Err(LoadError::DuplicateToken)),
    {
        let document = match parse_document(text) {
            Ok(document) => document,
            Err(_) => {
                return Err(LoadError::Syntax);
            },
        };
        match load_document(&document) {
            Ok(urls) => {
                self.urls = urls;
                Ok(())
            },
            Err(error) => Err(error),
        }
    }

    /// The document that mirrors the store, to be written to its file: the
    /// text that the serializer writes for the entries, and `SaveError`
    /// exactly where the serializer writes none for them.
    pub fn save_urls(&self) -> (outcome: Result<String, SaveError>)
        ensures
            match outcome {
                Ok(document) => json_object_text(self@) == Some(document@),
                Err(_) => json_object_text(self@) is None,
            },
    {
        let entries = all_pairs(&self.urls);
        match render_object(&entries) {
            Ok(document) => Ok(document),
            Err(_) => Err(SaveError),
        }
    }

    /// Whether `id` is an identifier of the range whose token is not taken.
    fn is_free_id(&self, id: u32) -> (free: bool)
        ensures
            free == is_free(self@, id as nat),
    {
        if ID_LOW <= id && id < ID_HIGH {
            let token = to_base58(id);
            !contains_first(&self.urls, token.as_str())
        } else {
            false
        }
    }

    /// The least free identifier. One pass over the entries marks the
    /// identifiers whose tokens are taken, and one over the marks finds the
    /// first that is not.
    fn first_free_id(&self) -> (found: Option<u32>)
        ensures
            match found {
                Some(id) => is_free(self@, id as nat) && id == least_free(self@),
                None => exhausted(self@),
            },
    {
        let entries = all_pairs(&self.urls);
        let span: usize = (ID_HIGH - ID_LOW) as usize;
        let mut taken: Vec<bool> = Vec::new();
        while taken.len() < span
            invariant
                taken.len() <= span,
                forall|k: int| 0 <= k < taken.len() ==> !taken[k],
            decreases span - taken.len(),
        {
            taken.push(false);
        }
        let mut i: usize = 0;
        while i < entries.len()
            invariant
                i <= entries.len() == self@.len(),
                forall|j: int| 0 <= j < entries.len() ==> (#[trigger] entries[j]).0@ == self@[j].0,
                taken.len() == span == ID_HIGH - ID_LOW,
                forall|k: int|
                    0 <= k < span ==> (#[trigger] taken[k] <==> marks(self@, i as int, ID_LOW + k)),
            decreases entries.len() - i,
        {
            let token: &String = &entries[i].0;
            match from_base58(token.as_str()) {
                Some(id) => {
                    if ID_LOW <= id && id < ID_HIGH && to_base58(id) == *token {
                        taken.set((id - ID_LOW) as usize, true);
                    }
                },
                None => {},
            }
            proof {
                assert forall|k: int| 0 <= k < span implies (#[trigger] taken[k] <==> marks(
                    self@,
                    i + 1,
                    ID_LOW + k,
                )) by {
                    if self@[i as int].0 == base58((ID_LOW + k) as nat) {
                        lemma_decode_encode((ID_LOW + k) as u32);
                    }
                }
            }
            i = i + 1;
        }
        let mut k: usize = 0;
        while k < span
            invariant
                k <= span == ID_HIGH - ID_LOW == taken.len(),
                forall|m: int|
                    0 <= m < span ==> (#[trigger] taken[m] <==> marks(
                        self@,
                        self@.len() as int,
                        ID_LOW + m,
                    )),
                forall|m: int| 0 <= m < k ==> taken[m],
            decreases span - k,
        {
            if !taken[k] {
                let id: u32 = ID_LOW + k as u32;
                proof {
                    assert forall|lower: nat| lower < id implies !is_free(self@, lower) by {
                        if ID_LOW <= lower {
                            assert(taken[lower - ID_LOW]);
                        }
                    }
                }
                return Some(id);
            }
            k = k + 1;
        }
        proof {
            assert forall|id: nat| !is_free(self@, id) by {
                if ID_LOW <= id < ID_HIGH {
                    assert(taken[id - ID_LOW]);
                }
            }
        }
        None
    }

    /// Takes the map out of the store, which holds an empty one until the
    /// map is put back.
    fn take_urls(&mut self) -> (urls: BidirMap<String, String>)
        ensures
            pairs(urls) == old(self)@,
            one_to_one(pairs(urls)),
            final(self).spec_path() == old(self).spec_path(),
    {
        proof {
            use_type_invariant(&*self);
        }
        let mut urls = empty_map();
        core::mem::swap(&mut self.urls, &mut urls);
        urls
    }

    /// What `add_url` gives for a URL that the store holds already.
    fn known(&self, url: &str) -> (found: Option<Added>)
        ensures
            match found {
                Some(added) => added.document is None && token_of(self@, url@) == Some(
                    added.token@,
                ),
                None => !has_second(self@, url@),
            },
    {
        proof {
            use_type_invariant(self);
        }
        match first_of(&self.urls, url) {
            Some(token) => Some(Added { token: token.clone(), document: None }),
            None => None,
        }
    }

    /// The identifier for a new entry where `candidate` is proposed for it.
    fn choose_id(&self, candidate: u32) -> (found: Option<u32>)
        ensures
            match found {
                Some(id) => is_free(self@, id as nat) && id == chosen_id(self@, candidate as nat),
                None => exhausted(self@),
            },
    {
        if self.is_free_id(candidate) {
            Some(candidate)
        } else {
            self.first_free_id()
        }
    }

    /// Puts the new entry of `token` and `url` behind the others and has the
    /// document made. Where that fails the entry is taken back.
    fn insert_new(&mut self, token: String, url: &str) -> (outcome: Result<Added, AddError>)
        requires
            !has_first(old(self)@, token@),
            !has_second(old(self)@, url@),
        ensures
            final(self).spec_path() == old(self).spec_path(),
            match outcome {
                Ok(added) => {
                    &&& added.token@ == token@
                    &&& added.document matches Some(document) && json_object_text(final(self)@)
                        == Some(document@)
                    &&& final(self)@ == old(self)@.push((token@, url@))
                },
                Err(error) => {
                    &&& error == AddError::NotPersisted
                    &&& json_object_text(old(self)@.push((token@, url@))) is None
                    &&& final(self)@ == old(self)@
                },
            },
    {
        let ghost before = self@;
        let mut urls = self.take_urls();
        insert_pair(&mut urls, token.clone(), url.to_owned());
        proof {
            lemma_push_one_to_one(before, token@, url@);
            lemma_push_then_remove(before, token@, url@);
        }
        self.urls = urls;
        match self.save_urls() {
            Ok(document) => Ok(Added { token, document: Some(document) }),
            Err(_) => {
                self.rollback(token.as_str());
                Err(AddError::NotPersisted)
            },
        }
    }

    /// Gives a token to `url`, which the store does not hold yet, with
    /// `candidate` proposed as its identifier.
    fn add_new(&mut self, url: &str, candidate: u32) -> (outcome: Result<Added, AddError>)
        requires
            !has_second(old(self)@, url@),
        ensures
            final(self).spec_path() == old(self).spec_path(),
            add_post(old(self)@, url@, outcome, final(self)@),
            outcome matches Ok(added) ==> added.document is Some && added.token@ == base58(
                chosen_id(old(self)@, candidate as nat),
            ),
            outcome matches Err(AddError::NotPersisted) ==> json_object_text(
                old(self)@.push((base58(chosen_id(old(self)@, candidate as nat)), url@)),
            ) is None,
    {
        match self.choose_id(candidate) {
            Some(id) => self.insert_new(to_base58(id), url),
            None => Err(AddError::Exhausted),
        }
    }

    /// Gives `url` a token, as `add_url` does, but with the identifier
    /// `candidate` proposed for a new token in place of one drawn at random:
    /// the new token is that of `candidate` where it is a free identifier of
    /// the range, and else that of the least free identifier. The adding fails
    /// for want of the document exactly where the serializer writes none for
    /// the entries with the new one behind them.
    pub fn add_url_with(&mut self, url: &str, candidate: u32) -> (outcome: Result<Added, AddError>)
        ensures
            final(self).spec_path() == old(self).spec_path(),
            add_post(old(self)@, url@, outcome, final(self)@),
            outcome matches Ok(added) ==> added.document is Some ==> added.token@ == base58(
                chosen_id(old(self)@, candidate as nat),
            ),
            outcome matches Err(AddError::NotPersisted) ==> json_object_text(
                old(self)@.push((base58(chosen_id(old(self)@, candidate as nat)), url@)),
            ) is None,
    {
        match self.known(url) {
            Some(added) => Ok(added),
            None => self.add_new(url, candidate),
        }
    }

    /// Gives `url` a token. A URL of the store keeps the token it has, and
    /// nothing changes. A new URL gets a token that no entry has: that of an
    /// identifier drawn at random from `ID_LOW..ID_HIGH`, drawn anew while it
    /// is taken, up to `MAX_DRAWS` times. After that, and where the system
    /// gives the generator no seed, it is that of the least free identifier.
    /// The new entry goes into the store, and the document that mirrors the
    /// store is handed back to be written; `settle` takes the news of how
    /// writing it went.
    pub fn add_url(&mut self, url: &str) -> (outcome: Result<Added, AddError>)
        ensures
            final(self).spec_path() == old(self).spec_path(),
            add_post(old(self)@, url@, outcome, final(self)@),
    {
        match self.known(url) {
            Some(added) => {
                return Ok(added);
            },
            None => {},
        }
        let mut candidate: u32 = ID_LOW;
        let mut draws: u32 = 0;
        let mut settled: bool = false;
        while draws < MAX_DRAWS && !settled
            invariant
                draws <= MAX_DRAWS,
                *self == *old(self),
            decreases MAX_DRAWS - draws,
        {
            match draw(ID_LOW, ID_HIGH) {
                Some(id) => {
                    candidate = id;
                    settled = self.is_free_id(id);
                },
                None => {
                    settled = true;
                },
            }
            draws = draws + 1;
        }
        self.add_new(url, candidate)
    }

    /// Takes back the entry that stands under `token`; the last entry takes
    /// its place.
    fn rollback(&mut self, token: &str)
        ensures
            final(self)@ == without_token(old(self)@, token@),
            final(self).spec_path() == old(self).spec_path(),
    {
        let mut urls = self.take_urls();
        remove_first(&mut urls, token);
        self.urls = urls;
    }

    /// Ends an `add_url` that made an entry under `token`, once the caller has
    /// tried to write the document: `written` says whether it is on disk. If
    /// it is, the entry stays. If it is not, the entry is taken back, the last
    /// entry takes its place, and the adding has failed.
    pub fn settle(&mut self, token: &str, written: bool) -> (outcome: Result<(), AddError>)
        ensures
            final(self).spec_path() == old(self).spec_path(),
            written ==> outcome is Ok && final(self)@ == old(self)@,
            !written ==> outcome == Err::<(), _>(AddError::NotPersisted) && final(self)@
                == without_token(old(self)@, token@),
    {
        if written {
            Ok(())
        } else {
            self.rollback(token);
            Err(AddError::NotPersisted)
        }
    }

    /// The URL that stands under `hash`.
    pub fn get_url(&self, hash: &str) -> (url: Option<&str>)
        ensures
            match url {
                Some(url) => url_of(self@, hash@) == Some(url@),
                None => url_of(self@, hash@) is None,
            },
    {
        proof {
            use_type_invariant(self);
        }
        match second_of(&self.urls, hash) {
            Some(url) => Some(url.as_str()),
            None => None,
        }
    }
}

} // verus!
