//! Looking up the time stamp in a JSON text.

use crate::clock;
use crate::clock::Timestamp;
use vstd::prelude::*;

verus! {

/// What a JSON text holds under a key.
pub enum JsonMember {
    /// The text is not JSON.
    Malformed,
    /// The text is JSON, but no object with this key.
    Absent,
    /// Something else than a string.
    Other,
    Text(String),
}

/// `JsonMember` with the characters of the string.
pub enum JsonMemberView {
    Malformed,
    Absent,
    Other,
    Text(Seq<char>),
}

impl View for JsonMember {
    type V = JsonMemberView;

    open spec fn view(&self) -> JsonMemberView {
        match *self {
            JsonMember::Malformed => JsonMemberView::Malformed,
            JsonMember::Absent => JsonMemberView::Absent,
            JsonMember::Other => JsonMemberView::Other,
            JsonMember::Text(s) => JsonMemberView::Text(s@),
        }
    }
}

/// What serde_json finds under `key` in the JSON text `source`.
pub uninterp spec fn json_member_of(source: Seq<char>, key: Seq<char>) -> JsonMemberView;

/// `serde_json::from_str` into a `serde_json::Value`, then `get` and `as_str`. Trusted: the
/// finding depends on the text and the key alone.
#[verifier::external_body]
pub(crate) fn json_member(source: &str, key: &str) -> (r: JsonMember)
    ensures
        r@ == json_member_of(source@, key@),
{
    match serde_json::from_str::<serde_json::Value>(source) {
        Err(_) => JsonMember::Malformed,
        Ok(value) => match value.get(key) {
            None => JsonMember::Absent,
            Some(member) => match member.as_str() {
                None => JsonMember::Other,
                Some(s) => JsonMember::Text(s.to_string()),
            },
        },
    }
}

/// What is known of the time stamp of a text.
pub enum StampField {
    /// The text is not JSON.
    Malformed,
    /// It is JSON without a time stamp, or with one that is no string.
    Missing,
    Text(String),
}

/// The time stamp among three members: the first that is there counts, whatever it is.
pub open spec fn chosen_stamp(
    first: JsonMemberView,
    second: JsonMemberView,
    third: JsonMemberView,
) -> JsonMemberView {
    if first !is Absent {
        first
    } else if second !is Absent {
        second
    } else {
        third
    }
}

impl StampField {
    /// Whether this is what `chosen` amounts to.
    pub open spec fn tells(self, chosen: JsonMemberView) -> bool {
        match chosen {
            JsonMemberView::Malformed => self is Malformed,
            JsonMemberView::Text(t) => self matches StampField::Text(s) && s@ == t,
            _ => self is Missing,
        }
    }
}

/// The time stamp among three members: the first that is there counts, whatever it is.
pub fn choose_stamp(first: JsonMember, second: JsonMember, third: JsonMember) -> (r: StampField)
    ensures
        r.tells(chosen_stamp(first@, second@, third@)),
{
    let chosen: JsonMember = match first {
        JsonMember::Absent => match second {
            JsonMember::Absent => third,
            found => found,
        },
        found => found,
    };
    match chosen {
        JsonMember::Malformed => StampField::Malformed,
        JsonMember::Text(s) => StampField::Text(s),
        JsonMember::Absent => StampField::Missing,
        JsonMember::Other => StampField::Missing,
    }
}

/// What the JSON text `source` holds as its time stamp.
pub open spec fn stamp_of(source: Seq<char>) -> JsonMemberView {
    chosen_stamp(
        json_member_of(source, "window_start_at"@),
        json_member_of(source, "timestamp"@),
        json_member_of(source, "generated_at"@),
    )
}

/// The time stamp of `source`: its window start, else its time stamp, else its time of
/// generation.
pub fn find_stamp(source: &str) -> (r: StampField)
    ensures
        r.tells(stamp_of(source@)),
{
    choose_stamp(
        json_member(source, "window_start_at"),
        json_member(source, "timestamp"),
        json_member(source, "generated_at"),
    )
}

/// The point of time that a time stamp names, if it is an RFC 3339 text.
pub open spec fn time_of(stamp: JsonMemberView) -> Option<(i64, u32)> {
    match stamp {
        JsonMemberView::Text(t) => clock::rfc3339_time(t),
        _ => None,
    }
}

/// The point of time that `stamp` names, if it is an RFC 3339 text.
pub fn stamp_time(stamp: &StampField) -> (r: Option<Timestamp>)
    ensures
        match r {
            Some(t) => t.wf() && (stamp matches StampField::Text(s) && clock::rfc3339_time(s@)
                == Some((t.secs, t.nanos))),
            None => stamp matches StampField::Text(s) ==> clock::rfc3339_time(s@) is None,
        },
{
    match stamp {
        StampField::Text(s) => clock::parse_rfc3339(s.as_str()),
        _ => None,
    }
}

/// The first of the three members that is there decides, whatever it is, and the later ones do
/// not matter.
pub proof fn law_first_member_decides(
    first: JsonMemberView,
    second: JsonMemberView,
    third: JsonMemberView,
)
    ensures
        first !is Absent ==> chosen_stamp(first, second, third) == first,
        first is Absent && second !is Absent ==> chosen_stamp(first, second, third) == second,
        first is Absent && second is Absent ==> chosen_stamp(first, second, third) == third,
{
}

/// The time stamp of a text is its window start, else its time stamp, else its time of
/// generation.
pub proof fn law_stamp_members(source: Seq<char>)
    ensures
        ({
            let start = json_member_of(source, "window_start_at"@);
            let stamp = json_member_of(source, "timestamp"@);
            let generated = json_member_of(source, "generated_at"@);
            &&& start !is Absent ==> stamp_of(source) == start
            &&& start is Absent && stamp !is Absent ==> stamp_of(source) == stamp
            &&& start is Absent && stamp is Absent ==> stamp_of(source) == generated
        }),
{
}

/// A field tells of a member that it is not there, or what its text is; only a text can name a
/// point of time.
pub proof fn law_field_tells_the_member(field: StampField, chosen: JsonMemberView)
    requires
        field.tells(chosen),
    ensures
        field is Malformed <==> chosen is Malformed,
        field is Missing <==> chosen is Absent || chosen is Other,
        field is Text <==> chosen is Text,
        chosen is Text ==> field->0@ == chosen->0,
        chosen is Text ==> time_of(chosen) == clock::rfc3339_time(chosen->0),
        chosen !is Text ==> time_of(chosen) is None,
{
}

/// A member is seen as what it is, with the characters of its text.
pub proof fn law_member_is_seen_whole(member: JsonMember)
    ensures
        member@ is Malformed <==> member is Malformed,
        member@ is Absent <==> member is Absent,
        member@ is Other <==> member is Other,
        member@ is Text <==> member is Text,
        member is Text ==> member@->0 == member->0@,
{
}

} // verus!
