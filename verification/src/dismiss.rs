//! The mentions that the user has dismissed by opening them, and the text in which they are kept:
//! a JSON object from `owner/repo#number` to the time of the dismissal.
use crate::error::{AppError, ErrorView};
use crate::ids::{has_key, is_key_at, unique_keys, IdMap, IdSet};
use crate::text::{
    ascii_alphanumeric, ascii_lower, chars_of, decimal, decimal_round_trip, is_ascii_alphanumeric,
    is_digit, number_in, parse_u64, same_ignoring_case, string_of, to_ascii_lower,
};
use crate::timestamp::{format_utc, rfc3339_text, rfc3339_value, Timestamp};
use crate::types::{id_text, PrId, PrIdView};
use chrono::{DateTime, Utc};
use std::collections::HashMap;
use vstd::prelude::*;
use vstd::string::*;

verus! {

// ---------------------------------------------------------------------------
// Keys

/// Whether `c` stands at `i` for the last time.
pub open spec fn is_last_at(s: Seq<char>, c: char, i: int) -> bool {
    0 <= i < s.len() && s[i] == c && forall|j: int| i < j < s.len() ==> s[j] != c
}

/// Whether `c` stands at `i` for the first time.
pub open spec fn is_first_char_at(s: Seq<char>, c: char, i: int) -> bool {
    0 <= i < s.len() && s[i] == c && forall|j: int| 0 <= j < i ==> s[j] != c
}

/// What is wrong with a key.
pub enum KeyFault {
    NoHash,
    BadNumber,
    NoSlash,
    EmptyPart,
}

/// The identity that the part before the last `#` and the number denote.
pub open spec fn id_of_parts(path: Seq<char>, number: u64) -> Result<PrIdView, KeyFault> {
    if !path.contains('/') {
        Err(KeyFault::NoSlash)
    } else {
        let slash = choose|i: int| is_first_char_at(path, '/', i);
        let owner = path.take(slash);
        let repo = path.skip(slash + 1);
        if owner.len() == 0 || repo.len() == 0 {
            Err(KeyFault::EmptyPart)
        } else {
            Ok(PrIdView { owner, repo, number })
        }
    }
}

/// The identity that a key denotes: a number after the last `#`, and before it an owner and a
/// repository around the first `/`.
pub open spec fn id_in(key: Seq<char>) -> Result<PrIdView, KeyFault> {
    if !key.contains('#') {
        Err(KeyFault::NoHash)
    } else {
        let hash = choose|i: int| is_last_at(key, '#', i);
        match number_in(key.skip(hash + 1)) {
            None => Err(KeyFault::BadNumber),
            Some(number) => id_of_parts(key.take(hash), number),
        }
    }
}

/// A text in quotes, with escapes, as the standard library shows it for debugging.
pub uninterp spec fn quoted(text: Seq<char>) -> Seq<char>;

/// Formats a text with `{:?}`, which calls `<str as Debug>::fmt`. The result depends on the text
/// alone. Which characters are escaped, and how, is not said.
#[verifier::external_body]
fn quote(text: &str) -> (r: String)
    ensures
        r@ == quoted(text@),
{
    format!("{text:?}")
}

/// What is said of a key that is not one.
pub open spec fn fault_text(fault: KeyFault, key: Seq<char>) -> Seq<char> {
    (match fault {
        KeyFault::NoHash => "invalid PR key (missing '#'): "@,
        KeyFault::BadNumber => "invalid PR number in key: "@,
        KeyFault::NoSlash => "invalid PR key (missing '/'): "@,
        KeyFault::EmptyPart => "invalid PR key (empty owner or repo): "@,
    }) + quoted(key)
}

fn last_place(chars: &Vec<char>, c: char) -> (r: Option<usize>)
    ensures
        r is Some <==> chars@.contains(c),
        r matches Some(i) ==> is_last_at(chars@, c, i as int),
{
    let mut i = chars.len();
    while i > 0
        invariant
            i <= chars.len(),
            forall|j: int| i <= j < chars@.len() ==> chars@[j] != c,
        decreases i,
    {
        i = i - 1;
        if chars[i] == c {
            return Some(i);
        }
    }
    None
}

fn first_place(chars: &Vec<char>, c: char) -> (r: Option<usize>)
    ensures
        r is Some <==> chars@.contains(c),
        r matches Some(i) ==> is_first_char_at(chars@, c, i as int),
{
    for i in 0..chars.len()
        invariant
            forall|j: int| 0 <= j < i ==> chars@[j] != c,
    {
        if chars[i] == c {
            return Some(i);
        }
    }
    None
}

fn part(chars: &Vec<char>, from: usize, to: usize) -> (r: Vec<char>)
    requires
        from <= to <= chars@.len(),
    ensures
        r@ == chars@.subrange(from as int, to as int),
{
    let mut out: Vec<char> = Vec::new();
    for i in from..to
        invariant
            from <= i <= to <= chars@.len(),
            out@ == chars@.subrange(from as int, i as int),
    {
        out.push(chars[i]);
        assert(out@ =~= chars@.subrange(from as int, i + 1));
    }
    out
}

/// The identity that `owner/repo#number` denotes.
pub fn parse_pr_id(key: &str) -> (r: Result<PrId, String>)
    ensures
        match r {
            Ok(id) => id_in(key@) == Ok::<PrIdView, KeyFault>(id@),
            Err(text) => id_in(key@) is Err && text@ == fault_text(id_in(key@)->Err_0, key@),
        },
{
    let chars = chars_of(key);
    let hash = match last_place(&chars, '#') {
        Some(i) => i,
        None => {
            return Err("invalid PR key (missing '#'): ".to_owned().concat(quote(key).as_str()));
        },
    };
    let digits = part(&chars, hash + 1, chars.len());
    let path = part(&chars, 0, hash);
    proof {
        let h = choose|i: int| is_last_at(key@, '#', i);
        assert(h == hash);
        assert(digits@ =~= key@.skip(h + 1));
        assert(path@ =~= key@.take(h));
    }
    let number = match parse_u64(string_of(&digits).as_str()) {
        Some(number) => number,
        None => {
            return Err("invalid PR number in key: ".to_owned().concat(quote(key).as_str()));
        },
    };
    let slash = match first_place(&path, '/') {
        Some(i) => i,
        None => {
            return Err("invalid PR key (missing '/'): ".to_owned().concat(quote(key).as_str()));
        },
    };
    let owner = part(&path, 0, slash);
    let repo = part(&path, slash + 1, path.len());
    proof {
        let s = choose|i: int| is_first_char_at(path@, '/', i);
        assert(s == slash);
        assert(owner@ =~= path@.take(s));
        assert(repo@ =~= path@.skip(s + 1));
    }
    if owner.len() == 0 || repo.len() == 0 {
        return Err(
            "invalid PR key (empty owner or repo): ".to_owned().concat(quote(key).as_str()),
        );
    }
    let id = PrId { owner: string_of(&owner), repo: string_of(&repo), number };
    assert(id@ =~= PrIdView { owner: owner@, repo: repo@, number });
    Ok(id)
}

/// Whether the text form of an identity can be told apart: the owner is not empty and has no `/`,
/// and the repository is not empty.
pub open spec fn is_addressable(id: PrIdView) -> bool {
    id.owner.len() > 0 && !id.owner.contains('/') && id.repo.len() > 0
}

/// The text form of an identity denotes the identity.
pub proof fn id_text_reads_back(id: PrIdView)
    requires
        is_addressable(id),
    ensures
        id_in(id_text(id)) == Ok::<PrIdView, KeyFault>(id),
{
    let key = id_text(id);
    let digits = decimal(id.number as nat);
    let path = id.owner + seq!['/'] + id.repo;
    decimal_round_trip(id.number);
    assert(key =~= path + seq!['#'] + digits);
    let at = path.len() as int;
    assert(key[at] == '#');
    assert forall|j: int| at < j < key.len() implies key[j] != '#' by {
        assert(key[j] == digits[j - at - 1]);
        assert(is_digit(digits[j - at - 1]));
    }
    assert(is_last_at(key, '#', at));
    let hash = choose|i: int| is_last_at(key, '#', i);
    assert(hash == at);
    assert(key.skip(hash + 1) =~= digits);
    assert(key.take(hash) =~= path);
    let place = id.owner.len() as int;
    assert(path[place] == '/');
    assert forall|j: int| 0 <= j < place implies path[j] != '/' by {
        assert(path[j] == id.owner[j]);
    }
    assert(is_first_char_at(path, '/', place));
    let slash = choose|i: int| is_first_char_at(path, '/', i);
    assert(slash == place);
    assert(path.take(slash) =~= id.owner);
    assert(path.skip(slash + 1) =~= id.repo);
    assert(path.contains('/'));
    assert(key.contains('#'));
}

// ---------------------------------------------------------------------------
// The text of the store

/// What `serde_json` and `chrono` read out of a text as a JSON object from names to times in
/// RFC 3339, or the message of the error.
pub uninterp spec fn stored_times(text: Seq<char>) -> Result<
    Map<Seq<char>, Timestamp>,
    Seq<char>,
>;

/// How `serde_json` writes a JSON object of the given names and texts.
pub uninterp spec fn object_text(fields: Seq<(Seq<char>, Seq<char>)>) -> Seq<char>;

/// Whether the fields are those of the map, each of them once.
pub open spec fn lists_times(
    fields: Seq<(String, Timestamp)>,
    times: Map<Seq<char>, Timestamp>,
) -> bool {
    &&& forall|i: int, j: int|
        #![trigger fields[i], fields[j]]
        0 <= i < j < fields.len() ==> fields[i].0@ != fields[j].0@
    &&& forall|i: int|
        #![trigger fields[i]]
        0 <= i < fields.len() ==> times.contains_key(fields[i].0@) && times[fields[i].0@]
            == fields[i].1
    &&& forall|key: Seq<char>| #[trigger]
        times.contains_key(key) ==> exists|i: int|
            0 <= i < fields.len() && (#[trigger] fields[i]).0@ == key
}

/// Calls `serde_json::from_str` for a map from names to `chrono`'s `DateTime<Utc>`. What it reads,
/// and what it says of a text that it refuses, depends on the text alone; each name comes out once,
/// in no particular order, and each time is one that the calendar holds. Which texts it accepts is
/// not said.
#[verifier::external_body]
fn read_times(text: &str) -> (r: Result<Vec<(String, Timestamp)>, String>)
    ensures
        match r {
            Ok(fields) => stored_times(text@) is Ok && lists_times(
                fields@,
                stored_times(text@)->Ok_0,
            ) && forall|i: int| 0 <= i < fields@.len() ==> (#[trigger] fields@[i]).1.in_calendar(),
            Err(what) => stored_times(text@) == Err::<Map<Seq<char>, Timestamp>, Seq<char>>(what@),
        },
{
    match serde_json::from_str::<HashMap<String, DateTime<Utc>>>(text) {
        Ok(times) => Ok(
            times.into_iter().map(
                |(key, at)|
                    (
                        key,
                        Timestamp { secs: at.timestamp(), nanos: at.timestamp_subsec_nanos() },
                    ),
            ).collect(),
        ),
        Err(e) => Err(e.to_string()),
    }
}

pub open spec fn field_views(fields: Seq<(String, String)>) -> Seq<(Seq<char>, Seq<char>)> {
    fields.map_values(|field: (String, String)| (field.0@, field.1@))
}

/// Whether the fields have different names, and their texts are times in RFC 3339, those of the map.
pub open spec fn are_times(
    fields: Seq<(String, String)>,
    times: Map<Seq<char>, Timestamp>,
) -> bool {
    &&& forall|i: int, j: int|
        #![trigger fields[i], fields[j]]
        0 <= i < j < fields.len() ==> fields[i].0@ != fields[j].0@
    &&& forall|i: int|
        #![trigger fields[i]]
        0 <= i < fields.len() ==> times.contains_key(fields[i].0@) && rfc3339_value(fields[i].1@)
            == Some(times[fields[i].0@])
    &&& forall|key: Seq<char>| #[trigger]
        times.contains_key(key) ==> exists|i: int|
            0 <= i < fields.len() && (#[trigger] fields[i]).0@ == key
}

/// Calls `serde_json::to_string_pretty` for a JSON object of texts. It fails only for a map with
/// names that are no texts, or where the value itself refuses, and a JSON value never does, so it
/// succeeds. The result depends on the fields alone; and where their names differ and their texts are
/// times, `from_str` reads the same names and times out of it again.
#[verifier::external_body]
fn write_fields(fields: &Vec<(String, String)>) -> (r: Result<String, String>)
    ensures
        r is Ok,
        r->Ok_0@ == object_text(field_views(fields@)),
        (forall|times: Map<Seq<char>, Timestamp>| #[trigger]
            are_times(fields@, times) ==> stored_times(r->Ok_0@) is Ok && stored_times(
                r->Ok_0@,
            )->Ok_0 == times),
{
    let object: serde_json::Map<String, serde_json::Value> = fields.iter().map(
        |(key, value)| (key.clone(), serde_json::Value::String(value.clone())),
    ).collect();
    match serde_json::to_string_pretty(&serde_json::Value::Object(object)) {
        Ok(text) => Ok(text),
        Err(e) => Err(e.to_string()),
    }
}

/// Whether `dismissed` is what the stored times say: every name is a key, and each identity has the
/// time of a key that denotes it.
pub open spec fn is_store_of(
    times: Map<Seq<char>, Timestamp>,
    dismissed: Map<PrIdView, Timestamp>,
) -> bool {
    &&& forall|key: Seq<char>| #[trigger]
        times.contains_key(key) ==> id_in(key) is Ok && dismissed.contains_key(id_in(key)->Ok_0)
    &&& forall|id: PrIdView| #[trigger]
        dismissed.contains_key(id) ==> exists|key: Seq<char>| #[trigger]
            times.contains_key(key) && id_in(key) == Ok::<PrIdView, KeyFault>(id) && times[key]
                == dismissed[id]
}

/// Whether `what` is said of one of the stored names, which is not a key.
pub open spec fn is_key_fault(times: Map<Seq<char>, Timestamp>, what: Seq<char>) -> bool {
    exists|key: Seq<char>| #[trigger]
        times.contains_key(key) && id_in(key) is Err && what == fault_text(
            id_in(key)->Err_0,
            key,
        )
}

/// The dismissals that the stored names and times say.
pub fn dismissals_of(fields: Vec<(String, Timestamp)>) -> (r: Result<IdMap<Timestamp>, String>)
    ensures
        r is Ok <==> forall|i: int|
            0 <= i < fields@.len() ==> id_in((#[trigger] fields@[i]).0@) is Ok,
        forall|times: Map<Seq<char>, Timestamp>| #[trigger]
            lists_times(fields@, times) ==> match r {
                Ok(map) => map.wf() && is_store_of(times, map@),
                Err(what) => is_key_fault(times, what@),
            },
        r matches Ok(map) ==> map.wf() && forall|id: PrIdView| #[trigger]
            map@.contains_key(id) ==> exists|i: int|
                0 <= i < fields@.len() && (#[trigger] fields@[i]).1 == map@[id],
{
    let mut map: IdMap<Timestamp> = IdMap::new();
    for i in 0..fields.len()
        invariant
            map.wf(),
            forall|j: int|
                0 <= j < i ==> id_in((#[trigger] fields@[j]).0@) is Ok && map@.contains_key(
                    id_in(fields@[j].0@)->Ok_0,
                ),
            forall|id: PrIdView| #[trigger]
                map@.contains_key(id) ==> exists|j: int|
                    0 <= j < i && id_in((#[trigger] fields@[j]).0@) == Ok::<PrIdView, KeyFault>(id)
                        && fields@[j].1 == map@[id],
    {
        let ghost before = map@;
        match parse_pr_id(fields[i].0.as_str()) {
            Err(what) => {
                proof {
                    assert(id_in(fields@[i as int].0@) is Err);
                    assert forall|times: Map<Seq<char>, Timestamp>| #[trigger]
                        lists_times(fields@, times) implies is_key_fault(times, what@) by {
                        assert(times.contains_key(fields@[i as int].0@));
                    }
                }
                return Err(what);
            },
            Ok(id) => {
                map.insert(id, fields[i].1);
                assert forall|x: PrIdView| #[trigger] map@.contains_key(x) implies exists|j: int|
                    0 <= j < i + 1 && id_in((#[trigger] fields@[j]).0@) == Ok::<
                        PrIdView,
                        KeyFault,
                    >(x) && fields@[j].1 == map@[x] by {
                    if x == id@ {
                        assert(id_in(fields@[i as int].0@) == Ok::<PrIdView, KeyFault>(x));
                    } else {
                        assert(before.contains_key(x));
                        let j = choose|j: int|
                            0 <= j < i && id_in((#[trigger] fields@[j]).0@) == Ok::<
                                PrIdView,
                                KeyFault,
                            >(x) && fields@[j].1 == before[x];
                        assert(id_in(fields@[j].0@) == Ok::<PrIdView, KeyFault>(x));
                    }
                }
            },
        }
    }
    proof {
        assert forall|times: Map<Seq<char>, Timestamp>| #[trigger]
            lists_times(fields@, times) implies is_store_of(times, map@) by {
            assert forall|key: Seq<char>| #[trigger] times.contains_key(key) implies id_in(
                key,
            ) is Ok && map@.contains_key(id_in(key)->Ok_0) by {
                let i = choose|i: int| 0 <= i < fields@.len() && (#[trigger] fields@[i]).0@ == key;
            }
            assert forall|id: PrIdView| #[trigger] map@.contains_key(id) implies exists|
                key: Seq<char>,
            | #[trigger]
                times.contains_key(key) && id_in(key) == Ok::<PrIdView, KeyFault>(id) && times[key]
                    == map@[id] by {
                let j = choose|j: int|
                    0 <= j < fields@.len() && id_in((#[trigger] fields@[j]).0@) == Ok::<
                        PrIdView,
                        KeyFault,
                    >(id) && fields@[j].1 == map@[id];
                assert(times.contains_key(fields@[j].0@));
            }
        }
    }
    Ok(map)
}

/// The dismissals that a text holds.
pub fn parse_store(text: &str) -> (r: Result<IdMap<Timestamp>, String>)
    ensures
        match stored_times(text@) {
            Err(what) => r is Err && r->Err_0@ == what,
            Ok(times) => match r {
                Ok(map) => map.wf() && is_store_of(times, map@),
                Err(what) => is_key_fault(times, what@),
            },
        },
        r matches Ok(map) ==> forall|id: PrIdView| #[trigger]
            map@.contains_key(id) ==> map@[id].in_calendar(),
{
    match read_times(text) {
        Err(what) => Err(what),
        Ok(fields) => {
            let ghost listed = fields@;
            let r = dismissals_of(fields);
            assert(lists_times(listed, stored_times(text@)->Ok_0));
            r
        },
    }
}

// ---------------------------------------------------------------------------
// The store

/// The dismissed mentions.
#[derive(Debug)]
pub struct DismissStore {
    map: IdMap<Timestamp>,
    dirty: bool,
}

/// What a [`DismissStore`] stands for.
#[verifier::ext_equal]
pub struct StoreView {
    /// When each mention was dismissed.
    pub dismissed: Map<PrIdView, Timestamp>,
    /// Whether there are changes that were not saved.
    pub dirty: bool,
}

impl View for DismissStore {
    type V = StoreView;

    closed spec fn view(&self) -> StoreView {
        StoreView { dismissed: self.map@, dirty: self.dirty }
    }
}

/// Whether the calendar holds the times.
pub open spec fn in_calendar(dismissed: Map<PrIdView, Timestamp>) -> bool {
    forall|id: PrIdView| #[trigger] dismissed.contains_key(id) ==> dismissed[id].in_calendar()
}

/// Whether every identity can be addressed.
pub open spec fn is_storable(dismissed: Map<PrIdView, Timestamp>) -> bool {
    forall|id: PrIdView| #[trigger] dismissed.contains_key(id) ==> is_addressable(id)
}

/// Whether a text can be read, and nothing but the given dismissals can be read from it.
pub open spec fn reads_as(text: Seq<char>, dismissed: Map<PrIdView, Timestamp>) -> bool {
    stored_times(text) is Ok && forall|other: Map<PrIdView, Timestamp>| #[trigger]
        is_store_of(stored_times(text)->Ok_0, other) <==> other == dismissed
}

/// What is said of a store that cannot be read.
pub open spec fn unreadable_text(path: Seq<char>, what: Seq<char>) -> Seq<char> {
    "Failed to parse "@ + path + ": "@ + what
        + ". Delete the file to recover (dismissed mentions will reappear)."@
}

impl DismissStore {
    pub closed spec fn wf(&self) -> bool {
        self.map.wf() && in_calendar(self.map@)
    }

    /// The store that a file holds; it is empty where there is no file. `path` is only shown where
    /// the text cannot be read. What [`DismissStore::save`] wrote is read back.
    pub fn load_from(path: &str, text: Option<&str>) -> (r: Result<DismissStore, AppError>)
        ensures
            r matches Ok(store) ==> store.wf() && !store@.dirty,
            text is None ==> r is Ok && r->Ok_0@.dismissed == Map::<PrIdView, Timestamp>::empty(),
            text matches Some(text) ==> match stored_times(text@) {
                Err(what) => r is Err && r->Err_0@ == ErrorView::Config(
                    unreadable_text(path@, what),
                ),
                Ok(times) => match r {
                    Ok(store) => is_store_of(times, store@.dismissed),
                    Err(e) => exists|what: Seq<char>| #[trigger]
                        is_key_fault(times, what) && e@ == ErrorView::Config(
                            unreadable_text(path@, what),
                        ),
                },
            },
            text matches Some(text) ==> forall|dismissed: Map<PrIdView, Timestamp>| #[trigger]
                reads_as(text@, dismissed) ==> r is Ok && r->Ok_0@.dismissed == dismissed,
    {
        match text {
            None => {
                let store = DismissStore { map: IdMap::new(), dirty: false };
                Ok(store)
            },
            Some(text) => match parse_store(text) {
                Ok(map) => Ok(DismissStore { map, dirty: false }),
                Err(what) => {
                    proof {
                        assert forall|dismissed: Map<PrIdView, Timestamp>| !#[trigger] reads_as(
                            text@,
                            dismissed,
                        ) by {
                            if reads_as(text@, dismissed) {
                                assert(is_store_of(stored_times(text@)->Ok_0, dismissed));
                            }
                        }
                    }
                    let mut out = "Failed to parse ".to_owned();
                    out.append(path);
                    out.append(": ");
                    out.append(what.as_str());
                    out.append(". Delete the file to recover (dismissed mentions will reappear).");
                    Err(AppError::Config(out))
                },
            },
        }
    }

    /// The text of the store. A store of addressable identities is read back from it.
    pub fn save(&self) -> (r: Result<String, AppError>)
        requires
            self.wf(),
        ensures
            r is Ok,
            exists|fields: Seq<(String, String)>| #[trigger]
                is_listing_of(fields, self@.dismissed) && r->Ok_0@ == object_text(
                    field_views(fields),
                ),
            is_storable(self@.dismissed) ==> reads_as(r->Ok_0@, self@.dismissed),
    {
        let mut fields: Vec<(String, String)> = Vec::new();
        let ghost entries = self.map.order();
        proof {
            self.map.order_lists_entries();
        }
        let count = self.map.len();
        for i in 0..count
            invariant
                self.wf(),
                count == entries.len(),
                entries == self.map.order(),
                unique_keys(entries),
                forall|j: int|
                    #![trigger entries[j]]
                    0 <= j < entries.len() ==> self.map@.contains_key(entries[j].0@)
                        && self.map@[entries[j].0@] == entries[j].1,
                fields@.len() == i,
                forall|j: int|
                    #![trigger fields@[j]]
                    0 <= j < i ==> fields@[j].0@ == id_text(entries[j].0@) && fields@[j].1@
                        == rfc3339_text(entries[j].1) && rfc3339_value(fields@[j].1@) == Some(
                        entries[j].1,
                    ),
        {
            let (id, at) = self.map.entry(i);
            assert(self.map@.contains_key(entries[i as int].0@));
            fields.push((id.to_string(), format_utc(*at)));
        }
        proof {
            assert(is_listing_of(fields@, self@.dismissed)) by {
                assert forall|i: int| 0 <= i < fields@.len() implies is_field_of(
                    #[trigger] fields@[i],
                    entries[i],
                ) by {}
                assert(entries_list(entries, self.map@));
                assert(lists_fields(fields@, entries));
            }
            assert forall|i: int|
                #![trigger entries[i]]
                0 <= i < entries.len() implies rfc3339_value(rfc3339_text(entries[i].1)) == Some(
                entries[i].1,
            ) by {
                assert(fields@[i].1@ == rfc3339_text(entries[i].1));
            }
            if is_storable(self.map@) {
                lemma_store_comes_back(fields@, entries, self.map@);
            }
        }
        match write_fields(&fields) {
            Ok(text) => Ok(text),
            Err(what) => {
                let message = "Failed to serialize dismiss store: ".to_owned().concat(
                    what.as_str(),
                );
                Err(AppError::Config(message))
            },
        }
    }

    /// Says that the store was saved.
    pub fn saved(&mut self)
        requires
            old(self).wf(),
        ensures
            final(self).wf(),
            final(self)@ == (StoreView { dirty: false, ..old(self)@ }),
    {
        self.dirty = false;
    }

    /// Dismisses a mention.
    pub fn dismiss(&mut self, id: PrId, at: Timestamp)
        requires
            old(self).wf(),
            at.in_calendar(),
        ensures
            final(self).wf(),
            final(self)@ == (StoreView {
                dismissed: old(self)@.dismissed.insert(id@, at),
                dirty: true,
            }),
    {
        self.map.insert(id, at);
        self.dirty = true;
    }

    /// Takes a dismissal back.
    pub fn undismiss(&mut self, id: &PrId)
        requires
            old(self).wf(),
        ensures
            final(self).wf(),
            final(self)@ == (StoreView {
                dismissed: old(self)@.dismissed.remove(id@),
                dirty: old(self)@.dirty || old(self)@.dismissed.contains_key(id@),
            }),
    {
        if self.map.remove(id) {
            self.dirty = true;
        }
    }

    /// When a mention was dismissed.
    pub fn get(&self, id: &PrId) -> (r: Option<Timestamp>)
        requires
            self.wf(),
        ensures
            r == (if self@.dismissed.contains_key(id@) {
                Some(self@.dismissed[id@])
            } else {
                None
            }),
    {
        match self.map.get(id) {
            Some(at) => Some(*at),
            None => None,
        }
    }

    /// Forgets the dismissals of all but the given pull requests.
    pub fn retain_ids(&mut self, keep: &IdSet)
        requires
            old(self).wf(),
        ensures
            final(self).wf(),
            final(self)@.dismissed == old(self)@.dismissed.restrict(keep@),
            final(self)@.dirty == (old(self)@.dirty || !old(self)@.dismissed.dom().subset_of(
                keep@,
            )),
    {
        if self.map.retain_in(keep) {
            self.dirty = true;
        }
    }

    /// The dismissals.
    pub fn snapshot(&self) -> (r: IdMap<Timestamp>)
        requires
            self.wf(),
        ensures
            r.wf(),
            r@ == self@.dismissed,
    {
        self.map.copied()
    }

    /// The dismissed mentions.
    pub fn dismissed_ids(&self) -> (r: IdSet)
        requires
            self.wf(),
        ensures
            r.wf(),
            r@ == self@.dismissed.dom(),
    {
        self.map.keys()
    }

    /// Whether there are changes that were not saved.
    pub fn is_dirty(&self) -> (r: bool)
        ensures
            r == self@.dirty,
    {
        self.dirty
    }
}

/// Whether the entries are those of the map, each of them once.
pub open spec fn entries_list(
    entries: Seq<(PrId, Timestamp)>,
    dismissed: Map<PrIdView, Timestamp>,
) -> bool {
    &&& unique_keys(entries)
    &&& forall|i: int|
        #![trigger entries[i]]
        0 <= i < entries.len() ==> dismissed.contains_key(entries[i].0@)
            && dismissed[entries[i].0@] == entries[i].1
    &&& forall|id: PrIdView| #[trigger] dismissed.contains_key(id) ==> has_key(entries, id)
}

/// Whether a field is the text form of an entry.
pub open spec fn is_field_of(field: (String, String), entry: (PrId, Timestamp)) -> bool {
    field.0@ == id_text(entry.0@) && field.1@ == rfc3339_text(entry.1)
}

pub open spec fn lists_fields(
    fields: Seq<(String, String)>,
    entries: Seq<(PrId, Timestamp)>,
) -> bool {
    fields.len() == entries.len() && forall|i: int|
        0 <= i < fields.len() ==> is_field_of(#[trigger] fields[i], entries[i])
}

/// Whether the fields are the text forms of the dismissals, in some order.
pub open spec fn is_listing_of(
    fields: Seq<(String, String)>,
    dismissed: Map<PrIdView, Timestamp>,
) -> bool {
    exists|entries: Seq<(PrId, Timestamp)>| #[trigger]
        entries_list(entries, dismissed) && lists_fields(fields, entries)
}

/// The times under the text forms of their identities.
spec fn times_of(dismissed: Map<PrIdView, Timestamp>) -> Map<Seq<char>, Timestamp> {
    Map::new(
        |key: Seq<char>|
            id_in(key) is Ok && dismissed.contains_key(id_in(key)->Ok_0) && key == id_text(
                id_in(key)->Ok_0,
            ),
        |key: Seq<char>| dismissed[id_in(key)->Ok_0],
    )
}

/// The fields of a storable store are its times, and nothing but the store is what these say.
proof fn lemma_store_comes_back(
    fields: Seq<(String, String)>,
    entries: Seq<(PrId, Timestamp)>,
    dismissed: Map<PrIdView, Timestamp>,
)
    requires
        is_storable(dismissed),
        entries_list(entries, dismissed),
        lists_fields(fields, entries),
        forall|i: int|
            #![trigger entries[i]]
            0 <= i < entries.len() ==> rfc3339_value(rfc3339_text(entries[i].1)) == Some(
                entries[i].1,
            ),
    ensures
        are_times(fields, times_of(dismissed)),
        forall|other: Map<PrIdView, Timestamp>| #[trigger]
            is_store_of(times_of(dismissed), other) <==> other == dismissed,
{
    let times = times_of(dismissed);
    assert forall|i: int|
        #![trigger entries[i]]
        0 <= i < entries.len() implies id_in(id_text(entries[i].0@)) == Ok::<PrIdView, KeyFault>(
        entries[i].0@,
    ) && times.contains_key(id_text(entries[i].0@)) && times[id_text(entries[i].0@)]
        == entries[i].1 by {
        assert(dismissed.contains_key(entries[i].0@));
        id_text_reads_back(entries[i].0@);
    }
    assert forall|i: int, j: int|
        #![trigger fields[i], fields[j]]
        0 <= i < j < fields.len() implies fields[i].0@ != fields[j].0@ by {
        assert(is_field_of(fields[i], entries[i]) && is_field_of(fields[j], entries[j]));
        assert(entries[i].0@ != entries[j].0@);
    }
    assert forall|i: int|
        #![trigger fields[i]]
        0 <= i < fields.len() implies times.contains_key(fields[i].0@) && rfc3339_value(
        fields[i].1@,
    ) == Some(times[fields[i].0@]) by {
        assert(is_field_of(fields[i], entries[i]));
        assert(dismissed.contains_key(entries[i].0@));
    }
    assert forall|key: Seq<char>| #[trigger] times.contains_key(key) implies exists|i: int|
        0 <= i < fields.len() && (#[trigger] fields[i]).0@ == key by {
        let id = id_in(key)->Ok_0;
        assert(dismissed.contains_key(id));
        let i = choose|i: int| is_key_at(entries, id, i);
        assert(is_field_of(fields[i], entries[i]));
        assert(fields[i].0@ == key);
    }
    assert forall|other: Map<PrIdView, Timestamp>| #[trigger]
        is_store_of(times, other) <==> other == dismissed by {
        if is_store_of(times, other) {
            assert forall|id: PrIdView| other.contains_key(id) <==> dismissed.contains_key(id) by {
                if other.contains_key(id) {
                    let key = choose|key: Seq<char>| #[trigger]
                        times.contains_key(key) && id_in(key) == Ok::<PrIdView, KeyFault>(id)
                            && times[key] == other[id];
                    assert(times.contains_key(key));
                }
                if dismissed.contains_key(id) {
                    id_text_reads_back(id);
                    assert(times.contains_key(id_text(id)));
                }
            }
            assert forall|id: PrIdView| dismissed.contains_key(id) implies other[id]
                == dismissed[id] by {
                assert(other.contains_key(id));
                let key = choose|key: Seq<char>| #[trigger]
                    times.contains_key(key) && id_in(key) == Ok::<PrIdView, KeyFault>(id)
                        && times[key] == other[id];
                assert(times.contains_key(key));
            }
            assert(other =~= dismissed);
        }
        if other == dismissed {
            assert forall|id: PrIdView| #[trigger] other.contains_key(id) implies exists|
                key: Seq<char>,
            | #[trigger]
                times.contains_key(key) && id_in(key) == Ok::<PrIdView, KeyFault>(id) && times[key]
                    == other[id] by {
                id_text_reads_back(id);
                assert(times.contains_key(id_text(id)));
            }
        }
    }
}

// ---------------------------------------------------------------------------
// Mentions

/// Whether `c` can be part of a login: an ASCII letter, a digit or a hyphen.
pub open spec fn is_login_char(c: char) -> bool {
    is_ascii_alphanumeric(c) || c == '-'
}

/// Whether `username` is mentioned at `i`: there is an `@` that follows neither a login character
/// nor another `@`, then the name in whatever case, then no further login character.
pub open spec fn is_mention_at(body: Seq<char>, username: Seq<char>, i: int) -> bool {
    let end = i + 1 + username.len();
    &&& 0 <= i
    &&& end <= body.len()
    &&& body[i] == '@'
    &&& i == 0 || !(is_login_char(body[i - 1]) || body[i - 1] == '@')
    &&& same_ignoring_case(body.subrange(i + 1, end), username)
    &&& end == body.len() || !is_login_char(body[end])
}

/// Whether a text mentions `username`.
pub open spec fn is_mentioned(body: Seq<char>, username: Seq<char>) -> bool {
    username.len() > 0 && exists|i: int| is_mention_at(body, username, i)
}

fn login_char(c: char) -> (r: bool)
    ensures
        r == is_login_char(c),
{
    ascii_alphanumeric(c) || c == '-'
}

fn mention_at(body: &Vec<char>, name: &Vec<char>, i: usize) -> (r: bool)
    requires
        i < body@.len(),
    ensures
        r == is_mention_at(body@, name@, i as int),
{
    if body[i] != '@' {
        return false;
    }
    if i > 0 && (login_char(body[i - 1]) || body[i - 1] == '@') {
        return false;
    }
    if name.len() > body.len() - (i + 1) {
        return false;
    }
    let end = i + 1 + name.len();
    let ghost there = body@.subrange(i + 1, end as int);
    for k in 0..name.len()
        invariant
            i + 1 + name@.len() == end,
            end <= body@.len(),
            there == body@.subrange(i + 1, end as int),
            forall|j: int| 0 <= j < k ==> ascii_lower(#[trigger] there[j]) == ascii_lower(name@[j]),
    {
        if to_ascii_lower(body[i + 1 + k]) != to_ascii_lower(name[k]) {
            assert(ascii_lower(there[k as int]) != ascii_lower(name@[k as int]));
            return false;
        }
    }
    assert(same_ignoring_case(there, name@));
    end == body.len() || !login_char(body[end])
}

/// Whether a comment mentions `username`.
pub fn contains_mention(body: &str, username: &str) -> (r: bool)
    ensures
        r == is_mentioned(body@, username@),
{
    let name = chars_of(username);
    if name.len() == 0 {
        return false;
    }
    let chars = chars_of(body);
    for i in 0..chars.len()
        invariant
            chars@ == body@,
            name@ == username@,
            name@.len() > 0,
            forall|j: int| 0 <= j < i ==> !is_mention_at(body@, username@, j),
    {
        if mention_at(&chars, &name, i) {
            return true;
        }
    }
    false
}

/// The case of ASCII letters in the name does not matter for a mention.
pub proof fn mention_ignores_case(body: Seq<char>, one: Seq<char>, other: Seq<char>)
    requires
        same_ignoring_case(one, other),
    ensures
        is_mentioned(body, one) == is_mentioned(body, other),
{
    assert forall|i: int| is_mention_at(body, one, i) <==> is_mention_at(body, other, i) by {
        let there = body.subrange(i + 1, i + 1 + one.len());
        if is_mention_at(body, one, i) {
            assert forall|k: int| 0 <= k < there.len() implies ascii_lower(#[trigger] there[k])
                == ascii_lower(other[k]) by {
                assert(ascii_lower(one[k]) == ascii_lower(other[k]));
            }
        }
        if is_mention_at(body, other, i) {
            assert forall|k: int| 0 <= k < there.len() implies ascii_lower(#[trigger] there[k])
                == ascii_lower(one[k]) by {
                assert(ascii_lower(one[k]) == ascii_lower(other[k]));
            }
        }
    }
}

/// The case of ASCII letters in the text does not matter for a mention.
pub proof fn case_of_the_text_does_not_matter(one: Seq<char>, other: Seq<char>, username: Seq<char>)
    requires
        same_ignoring_case(one, other),
    ensures
        is_mentioned(one, username) == is_mentioned(other, username),
{
    assert forall|i: int|
        is_mention_at(one, username, i) <==> is_mention_at(other, username, i) by {
        lemma_mention_in_other_case(one, other, username, i);
        lemma_mention_in_other_case(other, one, username, i);
    }
}

proof fn lemma_mention_in_other_case(
    one: Seq<char>,
    other: Seq<char>,
    username: Seq<char>,
    i: int,
)
    requires
        same_ignoring_case(one, other),
    ensures
        is_mention_at(one, username, i) ==> is_mention_at(other, username, i),
{
    if is_mention_at(one, username, i) {
        let end = i + 1 + username.len();
        let there = one.subrange(i + 1, end);
        let here = other.subrange(i + 1, end);
        assert(ascii_lower(one[i]) == ascii_lower(other[i]));
        if i > 0 {
            assert(ascii_lower(one[i - 1]) == ascii_lower(other[i - 1]));
        }
        if end < one.len() {
            assert(ascii_lower(one[end]) == ascii_lower(other[end]));
        }
        assert forall|k: int| 0 <= k < here.len() implies ascii_lower(#[trigger] here[k])
            == ascii_lower(username[k]) by {
            assert(ascii_lower(one[i + 1 + k]) == ascii_lower(other[i + 1 + k]));
            assert(ascii_lower(there[k]) == ascii_lower(username[k]));
        }
    }
}

/// Two texts with a space between them mention a name, which has no space, exactly where one of
/// them does.
pub proof fn joined_texts_mention_what_the_parts_do(
    one: Seq<char>,
    other: Seq<char>,
    username: Seq<char>,
)
    requires
        !username.contains(' '),
    ensures
        is_mentioned(one + seq![' '] + other, username) == (is_mentioned(one, username)
            || is_mentioned(other, username)),
{
    let both = one + seq![' '] + other;
    let n = username.len();
    let from = one.len() + 1;
    assert forall|i: int| is_mention_at(one, username, i) implies is_mention_at(
        both,
        username,
        i,
    ) by {
        assert(both.subrange(i + 1, i + 1 + n) =~= one.subrange(i + 1, i + 1 + n));
    }
    assert forall|i: int| is_mention_at(other, username, i) implies is_mention_at(
        both,
        username,
        i + from,
    ) by {
        assert(both.subrange(i + from + 1, i + from + 1 + n) =~= other.subrange(
            i + 1,
            i + 1 + n,
        ));
    }
    assert forall|i: int| is_mention_at(both, username, i) implies is_mention_at(one, username, i)
        || is_mention_at(other, username, i - from) by {
        let there = both.subrange(i + 1, i + 1 + n);
        if i < one.len() {
            if i + 1 + n > one.len() {
                let k = one.len() - (i + 1);
                assert(there[k] == ' ');
                assert(ascii_lower(there[k]) == ascii_lower(username[k]));
                assert(username[k] == ' ');
            }
            assert(there =~= one.subrange(i + 1, i + 1 + n));
        } else {
            assert(both[one.len() as int] == ' ');
            assert(there =~= other.subrange(i - from + 1, i - from + 1 + n));
        }
    }
    if is_mentioned(one, username) {
        let i = choose|i: int| is_mention_at(one, username, i);
        assert(is_mention_at(both, username, i));
    }
    if is_mentioned(other, username) {
        let i = choose|i: int| is_mention_at(other, username, i);
        assert(is_mention_at(both, username, i + from));
    }
    if is_mentioned(both, username) {
        let i = choose|i: int| is_mention_at(both, username, i);
        assert(is_mention_at(one, username, i) || is_mention_at(other, username, i - from));
    }
}

/// An at sign, the name in whatever case, and then the end or a character that is no ASCII letter,
/// digit or hyphen is a mention, where the at sign is the first character or stands behind one that
/// is no ASCII letter, digit, hyphen or at sign. What else the text holds does not matter.
pub proof fn a_mention_counts_wherever_it_stands(
    before: Seq<char>,
    written: Seq<char>,
    after: Seq<char>,
    username: Seq<char>,
)
    requires
        username.len() > 0,
        same_ignoring_case(written, username),
        before.len() == 0 || !(48 <= before.last() as int <= 57 || 65 <= before.last() as int <= 90
            || 97 <= before.last() as int <= 122 || before.last() == '-' || before.last() == '@'),
        after.len() == 0 || !(48 <= after[0] as int <= 57 || 65 <= after[0] as int <= 90 || 97
            <= after[0] as int <= 122 || after[0] == '-'),
    ensures
        is_mentioned(before + seq!['@'] + written + after, username),
{
    let body = before + seq!['@'] + written + after;
    let i = before.len() as int;
    let end = i + 1 + written.len();
    assert(body.subrange(i + 1, end) =~= written);
    assert(body[i] == '@');
    if i > 0 {
        assert(body[i - 1] == before.last());
    }
    if end < body.len() {
        assert(body[end] == after[0]);
    }
    assert(is_mention_at(body, username, i));
}

/// At the start of a text an at sign and the name are a mention, whatever follows behind a character
/// that is no ASCII letter, digit or hyphen.
pub proof fn a_mention_at_the_start_counts(username: Seq<char>, c: char, rest: Seq<char>)
    requires
        username.len() > 0,
        !(48 <= c as int <= 57 || 65 <= c as int <= 90 || 97 <= c as int <= 122 || c as int == 45),
    ensures
        is_mentioned(seq!['@'] + username, username),
        is_mentioned(seq!['@'] + username + seq![c] + rest, username),
{
    let none = Seq::<char>::empty();
    a_mention_counts_wherever_it_stands(none, username, none, username);
    assert(none + seq!['@'] + username + none =~= seq!['@'] + username);
    let after = seq![c] + rest;
    assert(after[0] == c);
    a_mention_counts_wherever_it_stands(none, username, after, username);
    assert(none + seq!['@'] + username + after =~= seq!['@'] + username + seq![c] + rest);
}

/// Where a text mentions a name, there is a place in it with an at sign, behind no ASCII letter,
/// digit, hyphen or at sign, and the name in some case, before no ASCII letter, digit or hyphen.
pub proof fn a_mention_has_its_place(body: Seq<char>, username: Seq<char>) -> (i: int)
    requires
        is_mentioned(body, username),
    ensures
        username.len() > 0,
        0 <= i,
        i + 1 + username.len() <= body.len(),
        body[i] == '@',
        i > 0 ==> !(48 <= body[i - 1] as int <= 57 || 65 <= body[i - 1] as int <= 90 || 97
            <= body[i - 1] as int <= 122 || body[i - 1] == '-' || body[i - 1] == '@'),
        same_ignoring_case(body.subrange(i + 1, i + 1 + username.len()), username),
        i + 1 + username.len() < body.len() ==> ({
            let next = body[i + 1 + username.len()];
            !(48 <= next as int <= 57 || 65 <= next as int <= 90 || 97 <= next as int <= 122 || next
                == '-')
        }),
{
    choose|i: int| is_mention_at(body, username, i)
}

/// A key is taken apart at its last hash and its first slash. Behind the hash stands the number, and
/// neither the owner nor the repository may be empty.
pub proof fn keys_are_taken_apart(path: Seq<char>, number: Seq<char>)
    requires
        !number.contains('#'),
    ensures
        number_in(number) is None ==> id_in(path + seq!['#'] + number) == Err::<
            PrIdView,
            KeyFault,
        >(KeyFault::BadNumber),
        number_in(number) is Some && !path.contains('/') ==> id_in(path + seq!['#'] + number)
            == Err::<PrIdView, KeyFault>(KeyFault::NoSlash),
        forall|owner: Seq<char>, repo: Seq<char>|
            path == #[trigger] (owner + seq!['/'] + repo) && !owner.contains('/') && number_in(
                number,
            ) is Some ==> id_in(path + seq!['#'] + number) == (if owner.len() > 0 && repo.len() > 0 {
                Ok::<PrIdView, KeyFault>(
                    PrIdView { owner, repo, number: number_in(number)->0 },
                )
            } else {
                Err::<PrIdView, KeyFault>(KeyFault::EmptyPart)
            }),
{
    let key = path + seq!['#'] + number;
    let at = path.len() as int;
    assert(key[at] == '#');
    assert(key.contains('#'));
    assert forall|j: int| at < j < key.len() implies key[j] != '#' by {
        assert(key[j] == number[j - at - 1]);
    }
    assert(is_last_at(key, '#', at));
    let hash = choose|i: int| is_last_at(key, '#', i);
    assert(hash == at);
    assert(key.skip(hash + 1) =~= number);
    assert(key.take(hash) =~= path);
    assert forall|owner: Seq<char>, repo: Seq<char>|
        path == #[trigger] (owner + seq!['/'] + repo) && !owner.contains('/') && number_in(number)
            is Some implies id_in(key) == (if owner.len() > 0 && repo.len() > 0 {
        Ok::<PrIdView, KeyFault>(PrIdView { owner, repo, number: number_in(number)->0 })
    } else {
        Err::<PrIdView, KeyFault>(KeyFault::EmptyPart)
    }) by {
        let place = owner.len() as int;
        assert(path[place] == '/');
        assert(path.contains('/'));
        assert forall|j: int| 0 <= j < place implies path[j] != '/' by {
            assert(path[j] == owner[j]);
        }
        assert(is_first_char_at(path, '/', place));
        let slash = choose|i: int| is_first_char_at(path, '/', i);
        assert(slash == place);
        assert(path.take(slash) =~= owner);
        assert(path.skip(slash + 1) =~= repo);
    }
}

/// A text without a hash is not a key.
pub proof fn a_key_needs_a_hash(key: Seq<char>)
    requires
        !key.contains('#'),
    ensures
        id_in(key) == Err::<PrIdView, KeyFault>(KeyFault::NoHash),
{
}

/// A store is read from names and times where every name is a key; each pull request is dismissed at
/// the time of a key that denotes it, and nothing else is dismissed.
pub proof fn stores_hold_what_their_keys_say(
    times: Map<Seq<char>, Timestamp>,
    dismissed: Map<PrIdView, Timestamp>,
    key: Seq<char>,
)
    requires
        is_store_of(times, dismissed),
        times.contains_key(key),
    ensures
        id_in(key) is Ok,
        dismissed.contains_key(id_in(key)->Ok_0),
        (forall|other: Seq<char>| #[trigger]
            times.contains_key(other) && other != key ==> id_in(other) != id_in(key)) ==> dismissed[
            id_in(key)->Ok_0
        ] == times[key],
        forall|id: PrIdView| #[trigger]
            dismissed.contains_key(id) ==> exists|other: Seq<char>| #[trigger]
                times.contains_key(other) && id_in(other) == Ok::<PrIdView, KeyFault>(id)
                    && times[other] == dismissed[id],
{
    let id = id_in(key)->Ok_0;
    let other = choose|other: Seq<char>| #[trigger]
        times.contains_key(other) && id_in(other) == Ok::<PrIdView, KeyFault>(id) && times[other]
            == dismissed[id];
    assert(times.contains_key(other));
}

/// What is said of a store whose names are not all keys is said of one that is none, by what is
/// wrong with it.
pub proof fn faults_name_the_wrong_key(times: Map<Seq<char>, Timestamp>, what: Seq<char>)
    requires
        is_key_fault(times, what),
    ensures
        exists|key: Seq<char>| #[trigger]
            times.contains_key(key) && match id_in(key) {
                Ok(_) => false,
                Err(KeyFault::NoHash) => what == "invalid PR key (missing '#'): "@ + quoted(key),
                Err(KeyFault::BadNumber) => what == "invalid PR number in key: "@ + quoted(key),
                Err(KeyFault::NoSlash) => what == "invalid PR key (missing '/'): "@ + quoted(key),
                Err(KeyFault::EmptyPart) => what == "invalid PR key (empty owner or repo): "@
                    + quoted(key),
            },
{
    let key = choose|key: Seq<char>| #[trigger]
        times.contains_key(key) && id_in(key) is Err && what == fault_text(
            id_in(key)->Err_0,
            key,
        );
    assert(times.contains_key(key));
}

/// What is said of a key that is not one shows the key.
pub proof fn faults_show_the_key(key: Seq<char>)
    ensures
        fault_text(KeyFault::NoHash, key) == "invalid PR key (missing '#'): "@ + quoted(key),
        fault_text(KeyFault::BadNumber, key) == "invalid PR number in key: "@ + quoted(key),
        fault_text(KeyFault::NoSlash, key) == "invalid PR key (missing '/'): "@ + quoted(key),
        fault_text(KeyFault::EmptyPart, key) == "invalid PR key (empty owner or repo): "@ + quoted(
            key,
        ),
{
}

/// A store can be read back where every owner and every repository has a name, and no owner a slash
/// in it.
pub proof fn ordinary_identities_can_be_stored(dismissed: Map<PrIdView, Timestamp>)
    ensures
        is_storable(dismissed) <==> forall|id: PrIdView| #[trigger]
            dismissed.contains_key(id) ==> id.owner.len() > 0 && id.repo.len() > 0
                && !id.owner.contains('/'),
{
    if forall|id: PrIdView| #[trigger]
        dismissed.contains_key(id) ==> id.owner.len() > 0 && id.repo.len() > 0
            && !id.owner.contains('/') {
        assert forall|id: PrIdView| #[trigger] dismissed.contains_key(id) implies is_addressable(
            id,
        ) by {}
    }
}

/// A text that reads as some dismissals says them, and no others.
pub proof fn a_text_reads_as_one_store(
    text: Seq<char>,
    dismissed: Map<PrIdView, Timestamp>,
    other: Map<PrIdView, Timestamp>,
)
    requires
        reads_as(text, dismissed),
    ensures
        stored_times(text) is Ok,
        is_store_of(stored_times(text)->Ok_0, dismissed),
        is_store_of(stored_times(text)->Ok_0, other) ==> other == dismissed,
{
}

/// Every dismissal is saved under the text form of its identity, with its time in RFC 3339, and
/// nothing else is saved.
pub proof fn every_dismissal_is_saved(
    fields: Seq<(String, String)>,
    dismissed: Map<PrIdView, Timestamp>,
    id: PrIdView,
)
    requires
        is_listing_of(fields, dismissed),
        dismissed.contains_key(id),
    ensures
        exists|i: int|
            0 <= i < fields.len() && (#[trigger] fields[i]).0@ == id_text(id) && fields[i].1@
                == rfc3339_text(dismissed[id]),
        forall|i: int|
            0 <= i < fields.len() ==> exists|other: PrIdView| #[trigger]
                dismissed.contains_key(other) && (#[trigger] fields[i]).0@ == id_text(other)
                    && fields[i].1@ == rfc3339_text(dismissed[other]),
{
    let entries = choose|entries: Seq<(PrId, Timestamp)>| #[trigger]
        entries_list(entries, dismissed) && lists_fields(fields, entries);
    let k = choose|k: int| is_key_at(entries, id, k);
    assert(is_field_of(fields[k], entries[k]));
    assert(dismissed[entries[k].0@] == entries[k].1);
    assert forall|i: int| 0 <= i < fields.len() implies exists|other: PrIdView| #[trigger]
        dismissed.contains_key(other) && (#[trigger] fields[i]).0@ == id_text(other) && fields[i].1@
            == rfc3339_text(dismissed[other]) by {
        assert(is_field_of(fields[i], entries[i]));
        assert(dismissed.contains_key(entries[i].0@));
    }
}

/// What is said of a store that cannot be read names the file and the fault, and how to recover.
pub proof fn unreadable_stores_are_named(path: Seq<char>, what: Seq<char>)
    ensures
        unreadable_text(path, what) == "Failed to parse "@ + path + seq![':', ' '] + what
            + ". Delete the file to recover (dismissed mentions will reappear)."@,
{
    reveal_strlit(": ");
    assert(": "@ =~= seq![':', ' ']);
}

} // verus!
