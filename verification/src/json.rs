//! JSON values as plain data.
use crate::score::Score;
use crate::text::{copy_text, same_text};
use serde_json::Value;
use vstd::prelude::*;

verus! {

/// A JSON number: an integer where it is one, else its binary64 value.
#[derive(Clone, Copy, Debug, PartialEq, Eq, Structural)]
pub enum JsonNumber {
    Unsigned(u64),
    Negative(i64),
    Float(Score),
}

/// A JSON value. An object keeps its members in order, one per key.
#[derive(Debug)]
pub enum Json {
    Null,
    Bool(bool),
    Number(JsonNumber),
    Text(String),
    Array(Vec<Json>),
    Object(Vec<Member>),
}

/// One member of a JSON object.
#[derive(Debug)]
pub struct Member {
    pub key: String,
    pub value: Json,
}

/// A JSON value with its texts as character sequences.
pub enum JsonView {
    Null,
    Bool(bool),
    Number(JsonNumber),
    Text(Seq<char>),
    Array(Seq<JsonView>),
    Object(Seq<(Seq<char>, JsonView)>),
}

impl View for Json {
    type V = JsonView;

    open spec fn view(&self) -> JsonView {
        self.model()
    }
}

impl Json {
    /// The value with its texts as character sequences.
    pub open spec fn model(self) -> JsonView
        decreases self,
    {
        match self {
            Json::Null => JsonView::Null,
            Json::Bool(b) => JsonView::Bool(b),
            Json::Number(n) => JsonView::Number(n),
            Json::Text(s) => JsonView::Text(s@),
            Json::Array(items) => JsonView::Array(
                Seq::new(
                    items@.len(),
                    |i: int|
                        if 0 <= i < items@.len() {
                            items@[i].model()
                        } else {
                            JsonView::Null
                        },
                ),
            ),
            Json::Object(members) => JsonView::Object(
                Seq::new(
                    members@.len(),
                    |i: int|
                        if 0 <= i < members@.len() {
                            (members@[i].key@, members@[i].value.model())
                        } else {
                            (Seq::empty(), JsonView::Null)
                        },
                ),
            ),
        }
    }
}

impl JsonView {
    /// The value of the first member of `members[..n]` with this key.
    pub open spec fn find(members: Seq<(Seq<char>, JsonView)>, key: Seq<char>) -> Option<JsonView>
        decreases members.len(),
    {
        if members.len() == 0 {
            None
        } else if members[0].0 == key {
            Some(members[0].1)
        } else {
            JsonView::find(members.drop_first(), key)
        }
    }

    /// The member of an object with this key; nothing of another value.
    pub open spec fn get(self, key: Seq<char>) -> Option<JsonView> {
        match self {
            JsonView::Object(members) => JsonView::find(members, key),
            _ => None,
        }
    }

    pub open spec fn text(self) -> Option<Seq<char>> {
        match self {
            JsonView::Text(s) => Some(s),
            _ => None,
        }
    }

    pub open spec fn boolean(self) -> Option<bool> {
        match self {
            JsonView::Bool(b) => Some(b),
            _ => None,
        }
    }

    /// The value as a signed 64-bit integer, where it is one.
    pub open spec fn signed(self) -> Option<i64> {
        match self {
            JsonView::Number(JsonNumber::Unsigned(n)) => if n <= i64::MAX {
                Some(n as i64)
            } else {
                None
            },
            JsonView::Number(JsonNumber::Negative(n)) => Some(n),
            _ => None,
        }
    }

    /// The value as an unsigned 64-bit integer, where it is one.
    pub open spec fn unsigned(self) -> Option<u64> {
        match self {
            JsonView::Number(JsonNumber::Unsigned(n)) => Some(n),
            _ => None,
        }
    }

    /// The text of the member with this key, where it is a text.
    pub open spec fn text_at(self, key: Seq<char>) -> Option<Seq<char>> {
        match self.get(key) {
            Some(value) => value.text(),
            None => None,
        }
    }

    pub open spec fn boolean_at(self, key: Seq<char>) -> Option<bool> {
        match self.get(key) {
            Some(value) => value.boolean(),
            None => None,
        }
    }
}

pub(crate) proof fn find_first(members: Seq<(Seq<char>, JsonView)>, key: Seq<char>, i: int)
    requires
        0 <= i <= members.len(),
        forall|j: int| 0 <= j < i ==> (#[trigger] members[j]).0 != key,
    ensures
        i < members.len() && members[i].0 == key ==> JsonView::find(members, key) == Some(
            members[i].1,
        ),
        i == members.len() ==> JsonView::find(members, key) is None,
    decreases i,
{
    if i > 0 {
        let rest = members.drop_first();
        assert forall|j: int| 0 <= j < i - 1 implies (#[trigger] rest[j]).0 != key by {
            assert(rest[j] == members[j + 1]);
        }
        if i < members.len() {
            assert(rest[i - 1] == members[i]);
        }
        assert(members[0].0 != key);
        find_first(rest, key, i - 1);
    }
}

impl Json {
    /// The member of an object with this key.
    pub fn get(&self, key: &str) -> (value: Option<&Json>)
        ensures
            match value {
                Some(v) => self@.get(key@) == Some(v@),
                None => self@.get(key@) is None,
            },
    {
        match self {
            Json::Object(members) => {
                let ghost all = self@->Object_0;
                let mut i: usize = 0;
                while i < members.len()
                    invariant
                        i <= members@.len(),
                        *self == Json::Object(*members),
                        all == self@->Object_0,
                        all.len() == members@.len(),
                        forall|j: int| 0 <= j < i ==> (#[trigger] all[j]).0 != key@,
                    decreases members@.len() - i,
                {
                    assert(all[i as int] == (members@[i as int].key@, members@[i as int].value@));
                    if same_text(members[i].key.as_str(), key) {
                        proof {
                            find_first(all, key@, i as int);
                        }
                        return Some(&members[i].value);
                    }
                    i += 1;
                }
                proof {
                    find_first(all, key@, i as int);
                }
                None
            },
            _ => None,
        }
    }

    pub fn as_str(&self) -> (text: Option<&str>)
        ensures
            match text {
                Some(t) => self@.text() == Some(t@),
                None => self@.text() is None,
            },
    {
        match self {
            Json::Text(s) => Some(s.as_str()),
            _ => None,
        }
    }

    pub fn as_bool(&self) -> (b: Option<bool>)
        ensures
            b == self@.boolean(),
    {
        match self {
            Json::Bool(b) => Some(*b),
            _ => None,
        }
    }

    pub fn as_i64(&self) -> (n: Option<i64>)
        ensures
            n == self@.signed(),
    {
        match self {
            Json::Number(JsonNumber::Unsigned(n)) => if *n <= i64::MAX as u64 {
                Some(*n as i64)
            } else {
                None
            },
            Json::Number(JsonNumber::Negative(n)) => Some(*n),
            _ => None,
        }
    }

    pub fn as_u64(&self) -> (n: Option<u64>)
        ensures
            n == self@.unsigned(),
    {
        match self {
            Json::Number(JsonNumber::Unsigned(n)) => Some(*n),
            _ => None,
        }
    }

    /// The text of the member with this key.
    pub fn text_at(&self, key: &str) -> (text: Option<&str>)
        ensures
            match text {
                Some(t) => self@.text_at(key@) == Some(t@),
                None => self@.text_at(key@) is None,
            },
    {
        match self.get(key) {
            Some(value) => value.as_str(),
            None => None,
        }
    }

    pub fn bool_at(&self, key: &str) -> (b: Option<bool>)
        ensures
            b == self@.boolean_at(key@),
    {
        match self.get(key) {
            Some(value) => value.as_bool(),
            None => None,
        }
    }

    pub fn is_object(&self) -> (r: bool)
        ensures
            r == (self@ is Object),
    {
        match self {
            Json::Object(_) => true,
            _ => false,
        }
    }
}

/// The members of all objects in a value, at every depth.
pub open spec fn member_count(value: JsonView) -> nat
    decreases value,
{
    match value {
        JsonView::Array(items) => members_in_items(items),
        JsonView::Object(members) => members_in_members(members),
        _ => 0,
    }
}

pub open spec fn members_in_items(items: Seq<JsonView>) -> nat
    decreases items,
{
    if items.len() == 0 {
        0
    } else {
        member_count(items[0]) + members_in_items(items.drop_first())
    }
}

pub open spec fn members_in_members(members: Seq<(Seq<char>, JsonView)>) -> nat
    decreases members,
{
    if members.len() == 0 {
        0
    } else {
        1 + member_count(members[0].1) + members_in_members(members.drop_first())
    }
}

/// Where a scan of JSON text stands: the colons seen outside strings, whether
/// it is inside a string, and whether the next byte is escaped.
pub struct ColonScan {
    pub colons: nat,
    pub in_string: bool,
    pub escaped: bool,
}

pub open spec fn scan_colons(bytes: Seq<u8>) -> ColonScan
    decreases bytes.len(),
{
    if bytes.len() == 0 {
        ColonScan { colons: 0, in_string: false, escaped: false }
    } else {
        let before = scan_colons(bytes.drop_last());
        let byte = bytes.last();
        if before.in_string {
            if before.escaped {
                ColonScan { escaped: false, ..before }
            } else if byte == 0x5c {
                ColonScan { escaped: true, ..before }
            } else if byte == 0x22 {
                ColonScan { in_string: false, ..before }
            } else {
                before
            }
        } else if byte == 0x22 {
            ColonScan { in_string: true, ..before }
        } else if byte == 0x3a {
            ColonScan { colons: before.colons + 1, ..before }
        } else {
            before
        }
    }
}

/// In JSON text every member has one colon outside strings, and a parsed
/// object keeps one member per key: the two counts differ exactly where a key
/// was repeated within an object.
pub open spec fn repeats_a_key(bytes: Seq<u8>, value: JsonView) -> bool {
    scan_colons(bytes).colons != member_count(value)
}

/// Why bytes were not accepted as one JSON value.
#[derive(Clone, Copy, Debug, PartialEq, Eq, Structural)]
pub enum DecodeError {
    TooLarge,
    Malformed,
    DuplicateKey,
}

/// The value that a bounded decoder reads from `bytes`, given what they parse
/// to.
pub open spec fn decoded(
    bytes: Seq<u8>,
    max_bytes: nat,
    parsed: Option<JsonView>,
) -> Result<JsonView, DecodeError> {
    if bytes.len() > max_bytes {
        Err(DecodeError::TooLarge)
    } else {
        match parsed {
            None => Err(DecodeError::Malformed),
            Some(value) => if repeats_a_key(bytes, value) {
                Err(DecodeError::DuplicateKey)
            } else {
                Ok(value)
            },
        }
    }
}

/// `serde_json::Value`, an opaque parsed document.
#[verifier::external_type_specification]
#[verifier::external_body]
pub struct ExValue(serde_json::Value);

/// The document that `serde_json::from_slice` reads from these bytes, if they
/// are one JSON document.
pub uninterp spec fn parsed_json(bytes: Seq<u8>) -> Option<JsonView>;

/// What a parsed document holds.
pub uninterp spec fn document(value: serde_json::Value) -> JsonView;

/// `serde_json::from_slice` into a `Value`. Its result depends on the bytes
/// alone; which document they spell is left to the name `parsed_json`.
#[verifier::external_body]
fn parse_value(bytes: &[u8]) -> (value: Option<serde_json::Value>)
    ensures
        match value {
            Some(v) => parsed_json(bytes@) == Some(document(v)),
            None => parsed_json(bytes@) is None,
        },
{
    serde_json::from_slice::<serde_json::Value>(bytes).ok()
}

/// The variants of `serde_json::Value`, moved one for one into plain data.
#[verifier::external_body]
fn json_of_value(value: serde_json::Value) -> (json: Json)
    ensures
        json@ == document(value),
{
    match value {
        Value::Null => Json::Null,
        Value::Bool(b) => Json::Bool(b),
        Value::Number(n) => Json::Number(match (n.as_u64(), n.as_i64()) {
            (Some(u), _) => JsonNumber::Unsigned(u),
            (None, Some(i)) => JsonNumber::Negative(i),
            _ => JsonNumber::Float(Score { bits: n.as_f64().unwrap_or_default().to_bits() }),
        }),
        Value::String(s) => Json::Text(s),
        Value::Array(list) => Json::Array(list.into_iter().map(json_of_value).collect()),
        Value::Object(map) => Json::Object(
            map.into_iter().map(|(key, v)| Member { key, value: json_of_value(v) }).collect()),
    }
}

impl Json {
    /// The members of all objects in the value. A count past `u128::MAX` is
    /// given as that bound.
    fn count_members(&self) -> (n: u128)
        ensures
            n == member_count(self@) || n == u128::MAX && member_count(self@) > u128::MAX,
        decreases self,
    {
        match self {
            Json::Array(items) => {
                let ghost all = self@->Array_0;
                let mut n: u128 = 0;
                let mut i: usize = items.len();
                assert(all.skip(i as int) =~= Seq::empty());
                while i > 0
                    invariant
                        i <= items@.len(),
                        *self == Json::Array(*items),
                        all == self@->Array_0,
                        all.len() == items@.len(),
                        n == members_in_items(all.skip(i as int)) || n == u128::MAX
                            && members_in_items(all.skip(i as int)) > u128::MAX,
                    decreases i,
                {
                    i -= 1;
                    assert(all[i as int] == items@[i as int]@);
                    assert(all.skip(i as int)[0] == all[i as int]);
                    assert(all.skip(i as int).drop_first() =~= all.skip(i as int + 1));
                    let more: u128 = items[i].count_members();
                    n = if more > u128::MAX - n {
                        u128::MAX
                    } else {
                        n + more
                    };
                }
                assert(all.skip(0) =~= all);
                n
            },
            Json::Object(members) => {
                let ghost all = self@->Object_0;
                let mut n: u128 = 0;
                let mut i: usize = members.len();
                assert(all.skip(i as int) =~= Seq::empty());
                while i > 0
                    invariant
                        i <= members@.len(),
                        *self == Json::Object(*members),
                        all == self@->Object_0,
                        all.len() == members@.len(),
                        n == members_in_members(all.skip(i as int)) || n == u128::MAX
                            && members_in_members(all.skip(i as int)) > u128::MAX,
                    decreases i,
                {
                    i -= 1;
                    assert(all[i as int] == (members@[i as int].key@, members@[i as int].value@));
                    assert(all.skip(i as int)[0] == all[i as int]);
                    assert(all.skip(i as int).drop_first() =~= all.skip(i as int + 1));
                    let more: u128 = members[i].value.count_members();
                    n = if more >= u128::MAX - n {
                        u128::MAX
                    } else {
                        n + more + 1
                    };
                }
                assert(all.skip(0) =~= all);
                n
            },
            _ => 0,
        }
    }
}

/// Count the colons outside strings.
fn count_colons(bytes: &[u8]) -> (colons: usize)
    ensures
        colons == scan_colons(bytes@).colons,
{
    let mut colons: usize = 0;
    let mut in_string: bool = false;
    let mut escaped: bool = false;
    let mut i: usize = 0;
    assert(bytes@.take(0) =~= Seq::empty());
    while i < bytes.len()
        invariant
            i <= bytes@.len(),
            colons <= i,
            scan_colons(bytes@.take(i as int)) == (ColonScan {
                colons: colons as nat,
                in_string,
                escaped,
            }),
        decreases bytes@.len() - i,
    {
        let byte: u8 = bytes[i];
        assert(bytes@.take(i as int + 1).drop_last() =~= bytes@.take(i as int));
        assert(bytes@.take(i as int + 1).last() == byte);
        if in_string {
            if escaped {
                escaped = false;
            } else if byte == 0x5c {
                escaped = true;
            } else if byte == 0x22 {
                in_string = false;
            }
        } else if byte == 0x22 {
            in_string = true;
        } else if byte == 0x3a {
            colons += 1;
        }
        i += 1;
    }
    assert(bytes@.take(i as int) =~= bytes@);
    colons
}

/// Accept a parsed value unless its text repeats a key.
pub fn accept_parsed(bytes: &[u8], max_bytes: usize, parsed: Option<Json>) -> (r: Result<
    Json,
    DecodeError,
>)
    ensures
        match r {
            Ok(value) => decoded(
                bytes@,
                max_bytes as nat,
                match parsed {
                    Some(p) => Some(p@),
                    None => None,
                },
            ) == Ok::<JsonView, DecodeError>(value@),
            Err(error) => decoded(
                bytes@,
                max_bytes as nat,
                match parsed {
                    Some(p) => Some(p@),
                    None => None,
                },
            ) == Err::<JsonView, DecodeError>(error),
        },
{
    if bytes.len() > max_bytes {
        return Err(DecodeError::TooLarge);
    }
    match parsed {
        None => Err(DecodeError::Malformed),
        Some(value) => {
            let colons: usize = count_colons(bytes);
            if colons as u128 != value.count_members() {
                Err(DecodeError::DuplicateKey)
            } else {
                Ok(value)
            }
        },
    }
}

/// Decode one bounded JSON document in which no object repeats a key.
pub fn decode_json(bytes: &[u8], max_bytes: usize) -> (r: Result<Json, DecodeError>)
    ensures
        match r {
            Ok(value) => decoded(bytes@, max_bytes as nat, parsed_json(bytes@)) == Ok::<
                JsonView,
                DecodeError,
            >(value@),
            Err(error) => decoded(bytes@, max_bytes as nat, parsed_json(bytes@)) == Err::<
                JsonView,
                DecodeError,
            >(error),
        },
{
    if bytes.len() > max_bytes {
        return Err(DecodeError::TooLarge);
    }
    let parsed: Option<Json> = match parse_value(bytes) {
        Some(value) => Some(json_of_value(value)),
        None => None,
    };
    accept_parsed(bytes, max_bytes, parsed)
}

/// The values of a list, text by text.
pub open spec fn json_views(list: Seq<Json>) -> Seq<JsonView> {
    list.map_values(|j: Json| j@)
}

impl JsonView {
    pub open spec fn items(self) -> Option<Seq<JsonView>> {
        match self {
            JsonView::Array(items) => Some(items),
            _ => None,
        }
    }

    /// The items of the member with this key, where it is an array.
    pub open spec fn items_at(self, key: Seq<char>) -> Option<Seq<JsonView>> {
        match self.get(key) {
            Some(value) => value.items(),
            None => None,
        }
    }
}

impl Json {
    pub fn as_array(&self) -> (items: Option<&Vec<Json>>)
        ensures
            match items {
                Some(list) => self@.items() == Some(json_views(list@)),
                None => self@.items() is None,
            },
    {
        match self {
            Json::Array(list) => {
                assert(self@->Array_0 =~= json_views(list@));
                Some(list)
            },
            _ => None,
        }
    }

    /// The items of the member with this key.
    pub fn array_at(&self, key: &str) -> (items: Option<&Vec<Json>>)
        ensures
            match items {
                Some(list) => self@.items_at(key@) == Some(json_views(list@)),
                None => self@.items_at(key@) is None,
            },
    {
        match self.get(key) {
            Some(value) => value.as_array(),
            None => None,
        }
    }

    pub fn is_null(&self) -> (r: bool)
        ensures
            r == (self@ is Null),
    {
        match self {
            Json::Null => true,
            _ => false,
        }
    }

    /// A copy of a value.
    pub fn copied(&self) -> (copy: Json)
        ensures
            copy@ == self@,
        decreases self,
    {
        match self {
            Json::Null => Json::Null,
            Json::Bool(b) => Json::Bool(*b),
            Json::Number(n) => Json::Number(*n),
            Json::Text(s) => Json::Text(copy_text(s.as_str())),
            Json::Array(list) => {
                let mut items: Vec<Json> = Vec::new();
                let mut i: usize = 0;
                while i < list.len()
                    invariant
                        i <= list@.len(),
                        *self == Json::Array(*list),
                        items@.len() == i,
                        forall|j: int| 0 <= j < i ==> (#[trigger] items@[j])@ == list@[j]@,
                    decreases list@.len() - i,
                {
                    assert(self@->Array_0[i as int] == list@[i as int]@);
                    items.push(list[i].copied());
                    i += 1;
                }
                let copy = Json::Array(items);
                assert(copy@->Array_0 =~= self@->Array_0);
                copy
            },
            Json::Object(list) => {
                let mut members: Vec<Member> = Vec::new();
                let mut i: usize = 0;
                while i < list.len()
                    invariant
                        i <= list@.len(),
                        *self == Json::Object(*list),
                        members@.len() == i,
                        forall|j: int|
                            0 <= j < i ==> (#[trigger] members@[j]).key@ == list@[j].key@
                                && members@[j].value@ == list@[j].value@,
                    decreases list@.len() - i,
                {
                    assert(self@->Object_0[i as int] == (
                        list@[i as int].key@,
                        list@[i as int].value@,
                    ));
                    members.push(
                        Member {
                            key: copy_text(list[i].key.as_str()),
                            value: list[i].value.copied(),
                        },
                    );
                    i += 1;
                }
                let copy = Json::Object(members);
                assert(copy@->Object_0 =~= self@->Object_0);
                copy
            },
        }
    }
}

/// The members of an object, text by text.
pub open spec fn member_views(list: Seq<Member>) -> Seq<(Seq<char>, JsonView)> {
    list.map_values(|m: Member| (m.key@, m.value@))
}

/// The array of the given items.
pub fn json_array(items: Vec<Json>) -> (json: Json)
    ensures
        json@ == JsonView::Array(json_views(items@)),
{
    let json = Json::Array(items);
    assert(json@->Array_0 =~= json_views(items@));
    json
}

/// The object of the given members.
pub fn json_object(members: Vec<Member>) -> (json: Json)
    ensures
        json@ == JsonView::Object(member_views(members@)),
{
    let json = Json::Object(members);
    assert(json@->Object_0 =~= member_views(members@));
    json
}

/// The JSON text of the given characters.
pub fn json_text(text: &str) -> (json: Json)
    ensures
        json@ == JsonView::Text(text@),
{
    Json::Text(copy_text(text))
}

/// Append a member.
pub fn push_member(members: &mut Vec<Member>, key: &str, value: Json)
    ensures
        member_views(final(members)@) == member_views(old(members)@).push((key@, value@)),
{
    let ghost before = member_views(members@);
    members.push(Member { key: copy_text(key), value });
    assert(member_views(members@) =~= before.push((key@, value@)));
}

/// The JSON truth value.
pub fn json_bool(value: bool) -> (json: Json)
    ensures
        json@ == JsonView::Bool(value),
{
    Json::Bool(value)
}

/// The JSON number of a count.
pub fn json_count(value: u64) -> (json: Json)
    ensures
        json@ == JsonView::Number(JsonNumber::Unsigned(value)),
{
    Json::Number(JsonNumber::Unsigned(value))
}

/// A text that may be absent, as JSON.
pub open spec fn optional_text_view(text: Option<Seq<char>>) -> JsonView {
    match text {
        Some(s) => JsonView::Text(s),
        None => JsonView::Null,
    }
}

pub fn json_optional(text: &Option<String>) -> (json: Json)
    ensures
        json@ == optional_text_view(crate::text::optional_text(*text)),
{
    match text {
        Some(s) => Json::Text(copy_text(s.as_str())),
        None => Json::Null,
    }
}

/// A score as JSON: one that is no finite number has no JSON form.
pub open spec fn score_view(score: Option<Score>) -> JsonView {
    match score {
        Some(s) => if s.is_finite_spec() {
            JsonView::Number(JsonNumber::Float(s))
        } else {
            JsonView::Null
        },
        None => JsonView::Null,
    }
}

pub fn json_score(score: Option<Score>) -> (json: Json)
    ensures
        json@ == score_view(score),
{
    match score {
        Some(s) => if s.is_finite() {
            Json::Number(JsonNumber::Float(s))
        } else {
            Json::Null
        },
        None => Json::Null,
    }
}

} // verus!
