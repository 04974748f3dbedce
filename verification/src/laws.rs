//! What holds whatever the store holds: laws that relate the operations to
//! one another, each proved from what the operations ensure.

use crate::base58::{
    alphabet, base58, lemma_alphabet_has_no_slash, lemma_base58_digits, lemma_base58_injective,
    lemma_three_digits,
};
use crate::bimap::{has_first, has_second, Entries};
use crate::dispatch::{created, leading_slashes, resolved, token_in, Response, Step};
use crate::json::{json_document, json_object_text, JsonShape, Members};
use crate::store::{
    add_post, entries_of, exhausted, fault_at, is_free, lemma_loaded_one_to_one,
    lemma_push_one_to_one, lemma_push_then_remove, loaded, loaded_text, one_to_one, token_of,
    unwritable, url_of, without_token, AddError, Added, LoadError, ID_HIGH, ID_LOW,
};
use vstd::prelude::*;
use vstd::relations::injective_on;
use vstd::set_lib::{lemma_int_range, lemma_len_subset, lemma_map_size, set_int_range};

verus! {

/// The members of the document that mirrors the entries `s`.
pub open spec fn members_of(s: Entries) -> Members {
    Seq::new(s.len(), |i: int| (s[i].0, Some(s[i].1)))
}

/// Every new token has three digits: the identifiers of the range are those
/// from 58² on, and stay below 58³.
pub proof fn lemma_token_length(id: nat)
    requires
        ID_LOW <= id < ID_HIGH,
    ensures
        base58(id).len() == 3,
{
    lemma_three_digits(id);
}

/// An entry that is added under a new token leaves the URLs of the other
/// tokens as they are.
proof fn lemma_push_keeps_urls(s: Entries, token: Seq<char>, url: Seq<char>, other: Seq<char>)
    requires
        one_to_one(s),
        !has_first(s, token),
        !has_second(s, url),
        has_first(s, other),
    ensures
        url_of(s.push((token, url)), other) == url_of(s, other),
{
    let after = s.push((token, url));
    lemma_push_one_to_one(s, token, url);
    let i = choose|i: int| 0 <= i < s.len() && (#[trigger] s[i]).0 == other;
    assert(after[i] == s[i]);
}

/// Lookup after add: a token that adding a URL gave stands for that URL in
/// the store as adding left it, and the entries stay one to one.
pub proof fn lemma_lookup_after_add(
    before: Entries,
    url: Seq<char>,
    outcome: Result<Added, AddError>,
    after: Entries,
)
    requires
        one_to_one(before),
        add_post(before, url, outcome, after),
    ensures
        one_to_one(after),
        outcome matches Ok(added) ==> url_of(after, added.token@) == Some(url) && token_of(
            after,
            url,
        ) == Some(added.token@),
{
    match outcome {
        Ok(added) => {
            let token = added.token@;
            if added.document is Some {
                lemma_push_one_to_one(before, token, url);
                assert(after[before.len() as int] == (token, url));
            }
        },
        Err(_) => {},
    }
}

/// Adding is idempotent: where adding a URL gave a token, adding the same
/// URL again gives the same token and leaves the store as the first call left
/// it. Over both calls the store gains one entry where the URL was new, and
/// none where it was not.
pub proof fn lemma_add_twice(
    before: Entries,
    url: Seq<char>,
    first: Result<Added, AddError>,
    between: Entries,
    second: Result<Added, AddError>,
    after: Entries,
)
    requires
        one_to_one(before),
        add_post(before, url, first, between),
        add_post(between, url, second, after),
    ensures
        first matches Ok(one) ==> {
            &&& second matches Ok(other) && other.token@ == one.token@ && other.document is None
            &&& after == between
            &&& after.len() == before.len() + if has_second(before, url) {
                0nat
            } else {
                1nat
            }
        },
{
    lemma_lookup_after_add(before, url, first, between);
}

/// Two URLs, added one after the other: where both get a token, the tokens
/// differ, and each stands for its own URL in the store as the second call
/// left it. The document that the second call handed back is that of the
/// store with both entries.
pub proof fn lemma_add_two(
    before: Entries,
    url_one: Seq<char>,
    first: Result<Added, AddError>,
    between: Entries,
    url_two: Seq<char>,
    second: Result<Added, AddError>,
    after: Entries,
)
    requires
        one_to_one(before),
        add_post(before, url_one, first, between),
        add_post(between, url_two, second, after),
        url_one != url_two,
    ensures
        first matches Ok(one) ==> second matches Ok(other) ==> {
            &&& one.token@ != other.token@
            &&& url_of(after, one.token@) == Some(url_one)
            &&& url_of(after, other.token@) == Some(url_two)
            &&& other.document matches Some(document) ==> json_object_text(after) == Some(
                document@,
            )
        },
{
    lemma_lookup_after_add(before, url_one, first, between);
    lemma_lookup_after_add(between, url_two, second, after);
    match (first, second) {
        (Ok(one), Ok(other)) => {
            if other.document is Some {
                lemma_push_keeps_urls(between, other.token@, url_two, one.token@);
            }
        },
        _ => {},
    }
}

/// Taking back a new entry undoes the adding: the store is as it was before
/// the URL was added.
pub proof fn lemma_settle_undoes_add(
    before: Entries,
    url: Seq<char>,
    outcome: Result<Added, AddError>,
    after: Entries,
)
    requires
        add_post(before, url, outcome, after),
    ensures
        outcome matches Ok(added) ==> added.document is Some ==> without_token(after, added.token@)
            == before,
{
    match outcome {
        Ok(added) => {
            if added.document is Some {
                lemma_push_then_remove(before, added.token@, url);
            }
        },
        Err(_) => {},
    }
}

/// Entries that are one to one load as they are: the document that mirrors
/// them has nothing wrong with it, and its members are these entries.
pub proof fn lemma_load_own_entries(s: Entries)
    requires
        one_to_one(s),
    ensures
        loaded(JsonShape::Object(members_of(s))) == Ok::<_, LoadError>(s),
{
    let members = members_of(s);
    assert forall|i: int| 0 <= i < members.len() implies (#[trigger] fault_at(members, i))
        is None by {
        assert forall|j: int| 0 <= j < i implies (#[trigger] members[j]).0 != members[i].0
            && members[j].1 != members[i].1 by {}
    }
    assert(entries_of(members) == s);
}

/// The place in `s` of the entry that stands under the token of `id`.
spec fn place_of(s: Entries, id: int) -> int {
    choose|i: int| 0 <= i < s.len() && (#[trigger] s[i]).0 == base58(id as nat)
}

/// There is room for a new token while the store has fewer entries than the
/// range has identifiers.
pub proof fn lemma_room(s: Entries)
    requires
        s.len() < ID_HIGH - ID_LOW,
    ensures
        !exhausted(s),
{
    if exhausted(s) {
        let ids = set_int_range(ID_LOW as int, ID_HIGH as int);
        let place = |id: int| place_of(s, id);
        let places = ids.map(place);
        lemma_int_range(ID_LOW as int, ID_HIGH as int);
        lemma_int_range(0, s.len() as int);
        assert forall|id: int| ids.contains(id) implies 0 <= place_of(s, id) < s.len()
            && s[place_of(s, id)].0 == base58(id as nat) by {
            assert(!is_free(s, id as nat));
        }
        assert(injective_on(place, ids)) by {
            assert forall|a: int, b: int|
                ids.contains(a) && ids.contains(b) && #[trigger] place(a) == #[trigger] place(
                    b,
                ) implies a == b by {
                lemma_base58_injective(a as nat, b as nat);
            }
        }
        lemma_map_size(ids, places, place);
        lemma_len_subset(places, set_int_range(0, s.len() as int));
    }
}

/// A new token is a numeral of three digits of the alphabet that no entry
/// had before.
pub proof fn lemma_new_token(
    before: Entries,
    url: Seq<char>,
    outcome: Result<Added, AddError>,
    after: Entries,
)
    requires
        add_post(before, url, outcome, after),
    ensures
        outcome matches Ok(added) ==> added.document is Some ==> {
            &&& added.token@.len() == 3
            &&& forall|i: int| 0 <= i < 3 ==> alphabet().contains(#[trigger] added.token@[i])
            &&& !has_first(before, added.token@)
        },
{
    match outcome {
        Ok(added) => {
            if added.document is Some {
                let id = choose|id: nat|
                    is_free(before, id) && added.token@ == #[trigger] base58(id);
                lemma_three_digits(id);
                assert forall|i: int| 0 <= i < 3 implies alphabet().contains(
                    #[trigger] added.token@[i],
                ) by {
                    lemma_base58_digits(id, i);
                }
            }
        },
        Err(_) => {},
    }
}

/// `a` holds the members of `b`, each once, in any order.
pub open spec fn rearranged(a: Members, b: Members) -> bool {
    &&& a.no_duplicates()
    &&& forall|i: int| 0 <= i < a.len() ==> b.contains(#[trigger] a[i])
    &&& forall|j: int| 0 <= j < b.len() ==> a.contains(#[trigger] b[j])
}

/// `a` and `b` hold the same pairs of token and URL, and each token stands
/// for the same URL in both.
pub open spec fn same_mapping(a: Entries, b: Entries) -> bool {
    &&& forall|pair: (Seq<char>, Seq<char>)| a.contains(pair) <==> b.contains(pair)
    &&& forall|token: Seq<char>| url_of(a, token) == url_of(b, token)
}

/// Loading does not go by the order of the members: the document that
/// mirrors entries that are one to one loads in whatever order its members
/// come, to the same pairs, and each token then stands for the URL it stood
/// for.
pub proof fn lemma_load_in_any_order(s: Entries, members: Members)
    requires
        one_to_one(s),
        rearranged(members, members_of(s)),
    ensures
        loaded(JsonShape::Object(members)) matches Ok(entries) && one_to_one(entries)
            && same_mapping(entries, s),
{
    let own = members_of(s);
    assert forall|i: int| 0 <= i < members.len() implies (#[trigger] fault_at(members, i))
        is None by {
        let a = choose|a: int| 0 <= a < own.len() && own[a] == members[i];
        assert forall|j: int| 0 <= j < i implies (#[trigger] members[j]).0 != members[i].0
            && members[j].1 != members[i].1 by {
            let b = choose|b: int| 0 <= b < own.len() && own[b] == members[j];
            assert(s[a].0 != s[b].0 && s[a].1 != s[b].1);
        }
    }
    let entries = entries_of(members);
    lemma_loaded_one_to_one(JsonShape::Object(members));
    assert forall|token: Seq<char>| url_of(entries, token) == url_of(s, token) by {
        if has_first(entries, token) {
            let i = choose|i: int| 0 <= i < entries.len() && (#[trigger] entries[i]).0 == token;
            let a = choose|a: int| 0 <= a < own.len() && own[a] == members[i];
            assert(s[a].0 == token);
            let b = choose|b: int| 0 <= b < s.len() && (#[trigger] s[b]).0 == token;
            assert(a == b);
        }
        if has_first(s, token) {
            let b = choose|b: int| 0 <= b < s.len() && (#[trigger] s[b]).0 == token;
            assert(members.contains(own[b]));
            let i = choose|i: int| 0 <= i < members.len() && members[i] == own[b];
            assert(entries[i].0 == token);
        }
    }
    assert forall|pair: (Seq<char>, Seq<char>)| entries.contains(pair) <==> s.contains(pair) by {
        if entries.contains(pair) {
            let i = choose|i: int| 0 <= i < entries.len() && entries[i] == pair;
            let a = choose|a: int| 0 <= a < own.len() && own[a] == members[i];
            assert(s[a] == pair);
        }
        if s.contains(pair) {
            let b = choose|b: int| 0 <= b < s.len() && s[b] == pair;
            assert(members.contains(own[b]));
            let i = choose|i: int| 0 <= i < members.len() && members[i] == own[b];
            assert(entries[i] == pair);
        }
    }
}

/// The parser reads `text` as an object whose members are those of the
/// document that mirrors `s`, each once, in whatever order.
pub open spec fn reads_back(s: Entries, text: Seq<char>) -> bool {
    json_document(text) matches Some(JsonShape::Object(members)) && rearranged(
        members,
        members_of(s),
    )
}

/// Save, then load: where the parser reads the text that the serializer
/// wrote for the entries back as their members, in whatever order, the text
/// loads to the same pairs, and each token stands for the URL it stood for.
/// That the parser reads back what the serializer wrote is the outside
/// crate's own, and is not claimed here.
pub proof fn lemma_save_then_load(s: Entries, text: Seq<char>)
    requires
        one_to_one(s),
    ensures
        json_object_text(s) == Some(text) && reads_back(s, text) ==> (loaded_text(
            json_document(text),
        ) matches Ok(entries) && one_to_one(entries) && same_mapping(entries, s)),
{
    if reads_back(s, text) {
        lemma_load_in_any_order(s, json_document(text)->0->Object_0);
    }
}

/// Two URLs, added one after the other, and then a load of the document
/// that the second adding handed out: where the parser reads that document
/// back as the members it was written from, the store that loads from it has
/// both entries.
pub proof fn lemma_add_two_then_load(
    before: Entries,
    url_one: Seq<char>,
    first: Result<Added, AddError>,
    between: Entries,
    url_two: Seq<char>,
    second: Result<Added, AddError>,
    after: Entries,
)
    requires
        one_to_one(before),
        add_post(before, url_one, first, between),
        add_post(between, url_two, second, after),
        url_one != url_two,
    ensures
        first matches Ok(one) ==> second matches Ok(other) ==> other.document matches Some(
            document,
        ) ==> reads_back(after, document@) ==> {
            &&& loaded_text(json_document(document@)) matches Ok(entries) && url_of(
                entries,
                one.token@,
            ) == Some(url_one) && url_of(entries, other.token@) == Some(url_two)
            &&& one.token@ != other.token@
        },
{
    lemma_add_two(before, url_one, first, between, url_two, second, after);
    lemma_lookup_after_add(before, url_one, first, between);
    lemma_lookup_after_add(between, url_two, second, after);
    match second {
        Ok(other) => {
            if other.document is Some {
                lemma_save_then_load(after, other.document->0@);
            }
        },
        Err(_) => {},
    }
}

/// What is left of a path once the `/` it begins with are gone, begins with
/// none.
pub proof fn lemma_token_in_path(path: Seq<char>)
    ensures
        leading_slashes(path) <= path.len(),
        leading_slashes(token_in(path)) == 0,
    decreases path.len(),
{
    if path.len() > 0 && path[0] == '/' {
        lemma_token_in_path(path.drop_first());
        assert(path.drop_first().skip(leading_slashes(path.drop_first()) as int) == path.skip(
            leading_slashes(path) as int,
        ));
    }
}

/// A request for a token, and then a request that names it: where the first
/// made a new entry under `token`, the path of `/` and `token` is sent on to
/// the URL that the first request gave as its query.
pub proof fn lemma_create_then_resolve(
    before: Entries,
    query: Seq<char>,
    base: Seq<char>,
    step: Step,
    after: Entries,
    response: Response,
)
    requires
        one_to_one(before),
        created(before, query, base, step, after),
        step matches Step::Persist { token, .. } && resolved(after, seq!['/'] + token@, response),
    ensures
        response matches Response::Redirect { location } && location@ == query,
{
    let token = step->Persist_token;
    let outcome = Ok::<Added, AddError>(Added { token, document: Some(step->Persist_document) });
    lemma_new_token(before, query, outcome, after);
    lemma_lookup_after_add(before, query, outcome, after);
    lemma_alphabet_has_no_slash();
    let path = seq!['/'] + token@;
    assert(path.drop_first() == token@);
    assert(token_in(path) == token@) by {
        assert(leading_slashes(token@) == 0);
    }
}

/// When a request for a token is owed its token. A URL that the store
/// holds is answered at once with its token. A new URL gets its entry, and
/// the document is handed out to be written, wherever an identifier is free
/// and the serializer writes the document for whichever free identifier is
/// taken; there is a free identifier while the store has fewer entries than
/// the range has identifiers.
pub proof fn lemma_create_is_owed(
    before: Entries,
    query: Seq<char>,
    base: Seq<char>,
    step: Step,
    after: Entries,
)
    requires
        created(before, query, base, step, after),
    ensures
        has_second(before, query) ==> step matches Step::Reply(Response::Created { .. }),
        !has_second(before, query) && !exhausted(before) && !unwritable(before, query)
            ==> step matches Step::Persist { .. },
        !has_second(before, query) && before.len() < ID_HIGH - ID_LOW && !unwritable(
            before,
            query,
        ) ==> step matches Step::Persist { .. },
{
    if before.len() < ID_HIGH - ID_LOW {
        lemma_room(before);
    }
}

/// A request for a token that made a new entry, once its document is
/// written: the reply has status 200 and a plain text as its body, the base
/// URL and the token. The token is that of an identifier of the range, and
/// stands in the store for the URL that the request gave as its query.
pub proof fn lemma_create_then_finish(
    before: Entries,
    query: Seq<char>,
    base: Seq<char>,
    step: Step,
    after: Entries,
    response: Response,
)
    requires
        one_to_one(before),
        created(before, query, base, step, after),
        step matches Step::Persist { token, .. } && (response matches Response::Created { body }
            && body@ == base + token@),
    ensures
        response.spec_status() == 200,
        response.spec_content_type() == Some("text/plain"@),
        step matches Step::Persist { token, .. } && {
            &&& response.spec_body() == base + token@
            &&& exists|id: nat| ID_LOW <= id < ID_HIGH && token@ == #[trigger] base58(id)
            &&& url_of(after, token@) == Some(query)
            &&& token_of(after, query) == Some(token@)
        },
{
    let token = step->Persist_token;
    let outcome = Ok::<Added, AddError>(Added { token, document: Some(step->Persist_document) });
    lemma_lookup_after_add(before, query, outcome, after);
    let id = choose|id: nat| is_free(before, id) && token@ == #[trigger] base58(id);
    assert(ID_LOW <= id < ID_HIGH && token@ == base58(id));
}

} // verus!
