//! Typed access to the attributes of an element. A getter that is asked
//! for a value that must be there records an error where it is not, and
//! the errors of all getters are reported together.

use crate::binary::attrs::{AttrEntryView, AttributeTypes, Attrs, attrs_get, AttrView};
use crate::binary::node::Node;
use crate::error::{ErrorView, RhustAppError};
use crate::text::{parse_i64, parse_int, parse_u64, str_eq};
use crate::types::jid::{empty_jid, JID, JidView};
use vstd::prelude::*;
use vstd::string::*;

verus! {

/// Whether the time crate can hold the instant that many seconds after
/// the Unix epoch.
pub uninterp spec fn timestamp_in_range(seconds: i64) -> bool;

/// `time::OffsetDateTime::from_unix_timestamp`, asked only whether it gives
/// an instant. The contract only names the answer.
#[verifier::external_body]
fn unix_timestamp_in_range(seconds: i64) -> (in_range: bool)
    ensures
        in_range == timestamp_in_range(seconds),
{
    time::OffsetDateTime::from_unix_timestamp(seconds).is_ok()
}

/// An instant, as seconds after the Unix epoch.
#[derive(Clone, Copy, Debug, PartialEq, Eq, Structural)]
pub struct UnixTime {
    pub seconds: i64,
}

/// The instant that many seconds after the Unix epoch, where it can be
/// held: the epoch itself always can.
pub open spec fn unix_time_of(seconds: i64) -> Option<UnixTime> {
    if seconds == 0 || timestamp_in_range(seconds) {
        Some(UnixTime { seconds })
    } else {
        None
    }
}

/// The instant that many seconds after the Unix epoch, given whether the
/// time crate can hold it.
pub fn unix_time_from(seconds: i64, in_range: bool) -> (instant: Option<UnixTime>)
    ensures
        instant == if seconds == 0 || in_range {
            Some(UnixTime { seconds })
        } else {
            None::<UnixTime>
        },
{
    if seconds == 0 || in_range {
        Some(UnixTime { seconds })
    } else {
        None
    }
}

/// Reads the attributes of one element and keeps the errors met.
pub struct AttrUtility<'a> {
    pub attrs: &'a Attrs,
    pub errors: Vec<RhustAppError>,
}

/// The plain values of errors.
pub open spec fn errors_view(errors: Seq<RhustAppError>) -> Seq<ErrorView> {
    Seq::new(errors.len(), |i: int| errors[i]@)
}

/// Whether the errors `after` are the errors `before` and, where there is
/// one, the failure behind them.
pub open spec fn recorded(
    before: Seq<RhustAppError>,
    after: Seq<RhustAppError>,
    failure: Option<ErrorView>,
) -> bool {
    match failure {
        None => errors_view(after) == errors_view(before),
        Some(e) => errors_view(after) == errors_view(before).push(e),
    }
}

/// The failure that counts: none where the value was not required.
pub open spec fn when_required(required: bool, failure: ErrorView) -> Option<ErrorView> {
    if required {
        Some(failure)
    } else {
        None
    }
}

/// The error about the attribute `key` whose description is the key
/// between `before` and `after`.
pub open spec fn attr_error(
    before: Seq<char>,
    key: Seq<char>,
    after: Seq<char>,
    cause: Option<Seq<char>>,
    location: Seq<char>,
) -> ErrorView {
    ErrorView { description: before + key + after, error: cause, location }
}

/// The identifier under `key`, or why there is none.
pub open spec fn find_jid(attrs: Seq<AttrEntryView>, key: Seq<char>) -> Result<JidView, ErrorView> {
    match attrs_get(attrs, key) {
        Some(AttrView::Jid(jid)) => Ok(jid),
        Some(AttrView::Text(_)) => Err(
            attr_error(
                "expected attribute '"@,
                key,
                "' to be JID, but was String"@,
                None,
                "AttrUtility::get_jid"@,
            ),
        ),
        None => Err(
            attr_error(
                "didn't find required JID attribute '"@,
                key,
                "'"@,
                None,
                "AttrUtility::get_jid"@,
            ),
        ),
    }
}

/// The string under `key`, or why there is none.
pub open spec fn find_string(attrs: Seq<AttrEntryView>, key: Seq<char>) -> Result<
    Seq<char>,
    ErrorView,
> {
    match attrs_get(attrs, key) {
        Some(AttrView::Text(text)) => Ok(text),
        Some(AttrView::Jid(_)) => Err(
            attr_error(
                "expected attribute '"@,
                key,
                "' to be String, but was JID"@,
                None,
                "AttrUtility::get_string"@,
            ),
        ),
        None => Err(
            attr_error(
                "didn't find required String attribute '"@,
                key,
                "'"@,
                None,
                "AttrUtility::get_string"@,
            ),
        ),
    }
}

/// The signed number under `key`, or why there is none.
pub open spec fn find_i64(attrs: Seq<AttrEntryView>, key: Seq<char>) -> Result<i64, ErrorView> {
    match find_string(attrs, key) {
        Err(e) => Err(e),
        Ok(text) => match parse_int(text, i64::MIN as int, i64::MAX as int) {
            Ok(number) => Ok(number as i64),
            Err(kind) => Err(
                attr_error(
                    "failed to parse i64 in attribute '"@,
                    key,
                    "'"@,
                    Some(kind.message()),
                    "AttrUtility::get_i64"@,
                ),
            ),
        },
    }
}

/// The unsigned number under `key`, or why there is none.
pub open spec fn find_u64(attrs: Seq<AttrEntryView>, key: Seq<char>) -> Result<u64, ErrorView> {
    match find_string(attrs, key) {
        Err(e) => Err(e),
        Ok(text) => match parse_int(text, 0, u64::MAX as int) {
            Ok(number) => Ok(number as u64),
            Err(kind) => Err(
                attr_error(
                    "failed to parse u64 in attribute '"@,
                    key,
                    "'"@,
                    Some(kind.message()),
                    "AttrUtility::get_u64"@,
                ),
            ),
        },
    }
}

/// The truth value that a text spells.
pub open spec fn bool_of(text: Seq<char>) -> Option<bool> {
    if text == "1"@ || text == "t"@ || text == "T"@ || text == "true"@ || text == "TRUE"@ || text
        == "True"@ {
        Some(true)
    } else if text == "0"@ || text == "f"@ || text == "F"@ || text == "false"@ || text == "FALSE"@
        || text == "False"@ {
        Some(false)
    } else {
        None
    }
}

/// The truth value under `key`, or why there is none.
pub open spec fn find_bool(attrs: Seq<AttrEntryView>, key: Seq<char>) -> Result<bool, ErrorView> {
    match find_string(attrs, key) {
        Err(e) => Err(e),
        Ok(text) => match bool_of(text) {
            Some(b) => Ok(b),
            None => Err(
                attr_error(
                    "failed to parse bool in attribute '"@,
                    key,
                    "'"@,
                    None,
                    "AttrUtility::get_bool"@,
                ),
            ),
        },
    }
}

/// The text of the first `k` errors, in a bracket, with a comma between
/// each two.
pub open spec fn error_list(errors: Seq<ErrorView>, k: int) -> Seq<char>
    decreases k,
{
    if k <= 0 || k > errors.len() {
        seq!['[']
    } else if k == 1 {
        error_list(errors, 0) + seq![' '] + errors[0].text()
    } else {
        error_list(errors, k - 1) + seq![',', ' '] + errors[k - 1].text()
    }
}

/// All errors as one, where there is any: its cause is the list of their
/// texts.
pub open spec fn aggregate(errors: Seq<ErrorView>) -> Option<ErrorView> {
    if errors.len() == 0 {
        None
    } else {
        Some(
            ErrorView {
                description: "error(s) occured while fetching attributes"@,
                error: Some(error_list(errors, errors.len() as int) + seq![' ', ']']),
                location: "AttrUtility::error"@,
            },
        )
    }
}

/// Makes the error about the attribute `key`.
fn describe(before: &str, key: &str, after: &str, cause: Option<String>, location: &str) -> (error:
    RhustAppError)
    ensures
        error@ == attr_error(
            before@,
            key@,
            after@,
            match cause {
                Some(text) => Some(text@),
                None => None,
            },
            location@,
        ),
{
    let mut description = String::new();
    description.append(before);
    description.append(key);
    description.append(after);
    assert(description@ =~= before@ + key@ + after@);
    RhustAppError { description, error: cause, location: location.to_owned() }
}

impl<'a> AttrUtility<'a> {
    /// Records an error.
    fn record(&mut self, error: RhustAppError)
        ensures
            final(self).attrs == old(self).attrs,
            recorded(old(self).errors@, final(self).errors@, Some(error@)),
    {
        self.errors.push(error);
        assert(errors_view(self.errors@) =~= errors_view(old(self).errors@).push(error@));
    }

    /// The identifier under `key`. Where there is none, nothing is given,
    /// and the reason is recorded if the value is required.
    fn get_jid(&mut self, key: &str, required: bool) -> (value: Option<JID>)
        ensures
            final(self).attrs == old(self).attrs,
            match find_jid(old(self).attrs@, key@) {
                Ok(jid) => value is Some && value->0@ == jid && recorded(
                    old(self).errors@,
                    final(self).errors@,
                    None,
                ),
                Err(e) => value is None && recorded(
                    old(self).errors@,
                    final(self).errors@,
                    when_required(required, e),
                ),
            },
    {
        match self.attrs.get(key) {
            Some(AttributeTypes::JID(jid)) => Some(jid.clone()),
            Some(AttributeTypes::String(_)) => {
                if required {
                    self.record(
                        describe(
                            "expected attribute '",
                            key,
                            "' to be JID, but was String",
                            None,
                            "AttrUtility::get_jid",
                        ),
                    );
                }
                None
            },
            None => {
                if required {
                    self.record(
                        describe(
                            "didn't find required JID attribute '",
                            key,
                            "'",
                            None,
                            "AttrUtility::get_jid",
                        ),
                    );
                }
                None
            },
        }
    }

    /// The identifier under `key`, if there is one. Records no error.
    pub fn optional_jid(&mut self, key: &str) -> (value: Option<JID>)
        ensures
            final(self).attrs == old(self).attrs,
            recorded(old(self).errors@, final(self).errors@, None),
            match find_jid(old(self).attrs@, key@) {
                Ok(jid) => value is Some && value->0@ == jid,
                Err(_) => value is None,
            },
    {
        self.get_jid(key, false)
    }

    /// The identifier under `key`, or the empty identifier where there is
    /// none. Records no error.
    pub fn optional_jid_or_empty(&mut self, key: &str) -> (value: JID)
        ensures
            final(self).attrs == old(self).attrs,
            recorded(old(self).errors@, final(self).errors@, None),
            value@ == match find_jid(old(self).attrs@, key@) {
                Ok(jid) => jid,
                Err(_) => JidView::pair(Seq::empty(), Seq::empty()),
            },
    {
        match self.get_jid(key, false) {
            Some(jid) => jid,
            None => empty_jid(),
        }
    }

    /// The identifier under `key`. Where there is none, nothing is given
    /// and the reason is recorded.
    pub fn jid(&mut self, key: &str) -> (value: Option<JID>)
        ensures
            final(self).attrs == old(self).attrs,
            match find_jid(old(self).attrs@, key@) {
                Ok(jid) => value is Some && value->0@ == jid && recorded(
                    old(self).errors@,
                    final(self).errors@,
                    None,
                ),
                Err(e) => value is None && recorded(
                    old(self).errors@,
                    final(self).errors@,
                    Some(e),
                ),
            },
    {
        self.get_jid(key, true)
    }

    /// The string under `key`. Where there is none, nothing is given, and
    /// the reason is recorded if the value is required.
    fn get_string(&mut self, key: &str, required: bool) -> (value: Option<String>)
        ensures
            final(self).attrs == old(self).attrs,
            match find_string(old(self).attrs@, key@) {
                Ok(text) => value is Some && value->0@ == text && recorded(
                    old(self).errors@,
                    final(self).errors@,
                    None,
                ),
                Err(e) => value is None && recorded(
                    old(self).errors@,
                    final(self).errors@,
                    when_required(required, e),
                ),
            },
    {
        match self.attrs.get(key) {
            Some(AttributeTypes::String(s)) => Some(s.clone()),
            Some(AttributeTypes::JID(_)) => {
                if required {
                    self.record(
                        describe(
                            "expected attribute '",
                            key,
                            "' to be String, but was JID",
                            None,
                            "AttrUtility::get_string",
                        ),
                    );
                }
                None
            },
            None => {
                if required {
                    self.record(
                        describe(
                            "didn't find required String attribute '",
                            key,
                            "'",
                            None,
                            "AttrUtility::get_string",
                        ),
                    );
                }
                None
            },
        }
    }

    /// The string under `key`, if there is one. Records no error.
    pub fn optional_string(&mut self, key: &str) -> (value: Option<String>)
        ensures
            final(self).attrs == old(self).attrs,
            recorded(old(self).errors@, final(self).errors@, None),
            match find_string(old(self).attrs@, key@) {
                Ok(text) => value is Some && value->0@ == text,
                Err(_) => value is None,
            },
    {
        self.get_string(key, false)
    }

    /// The string under `key`. Where there is none, nothing is given and
    /// the reason is recorded.
    pub fn string(&mut self, key: &str) -> (value: Option<String>)
        ensures
            final(self).attrs == old(self).attrs,
            match find_string(old(self).attrs@, key@) {
                Ok(text) => value is Some && value->0@ == text && recorded(
                    old(self).errors@,
                    final(self).errors@,
                    None,
                ),
                Err(e) => value is None && recorded(
                    old(self).errors@,
                    final(self).errors@,
                    Some(e),
                ),
            },
    {
        self.get_string(key, true)
    }

    /// The signed number under `key`. Where there is none, nothing is
    /// given, and the reason is recorded if the value is required.
    fn get_i64(&mut self, key: &str, required: bool) -> (value: Option<i64>)
        ensures
            final(self).attrs == old(self).attrs,
            match find_i64(old(self).attrs@, key@) {
                Ok(number) => value == Some(number) && recorded(
                    old(self).errors@,
                    final(self).errors@,
                    None,
                ),
                Err(e) => value is None && recorded(
                    old(self).errors@,
                    final(self).errors@,
                    when_required(required, e),
                ),
            },
    {
        match self.get_string(key, required) {
            Some(s) => match parse_i64(s.as_str()) {
                Ok(val) => Some(val),
                Err(kind) => {
                    if required {
                        self.record(
                            describe(
                                "failed to parse i64 in attribute '",
                                key,
                                "'",
                                Some(kind.to_string()),
                                "AttrUtility::get_i64",
                            ),
                        );
                    }
                    None
                },
            },
            None => None,
        }
    }

    /// The signed number under `key`. Where there is none, nothing is
    /// given and the reason is recorded.
    pub fn i64(&mut self, key: &str) -> (value: Option<i64>)
        ensures
            final(self).attrs == old(self).attrs,
            match find_i64(old(self).attrs@, key@) {
                Ok(number) => value == Some(number) && recorded(
                    old(self).errors@,
                    final(self).errors@,
                    None,
                ),
                Err(e) => value is None && recorded(
                    old(self).errors@,
                    final(self).errors@,
                    Some(e),
                ),
            },
    {
        self.get_i64(key, true)
    }

    /// The unsigned number under `key`. Where there is none, nothing is
    /// given, and the reason is recorded if the value is required.
    fn get_u64(&mut self, key: &str, required: bool) -> (value: Option<u64>)
        ensures
            final(self).attrs == old(self).attrs,
            match find_u64(old(self).attrs@, key@) {
                Ok(number) => value == Some(number) && recorded(
                    old(self).errors@,
                    final(self).errors@,
                    None,
                ),
                Err(e) => value is None && recorded(
                    old(self).errors@,
                    final(self).errors@,
                    when_required(required, e),
                ),
            },
    {
        match self.get_string(key, required) {
            Some(s) => match parse_u64(s.as_str()) {
                Ok(val) => Some(val),
                Err(kind) => {
                    if required {
                        self.record(
                            describe(
                                "failed to parse u64 in attribute '",
                                key,
                                "'",
                                Some(kind.to_string()),
                                "AttrUtility::get_u64",
                            ),
                        );
                    }
                    None
                },
            },
            None => None,
        }
    }

    /// The unsigned number under `key`. Where there is none, nothing is
    /// given and the reason is recorded.
    pub fn u64(&mut self, key: &str) -> (value: Option<u64>)
        ensures
            final(self).attrs == old(self).attrs,
            match find_u64(old(self).attrs@, key@) {
                Ok(number) => value == Some(number) && recorded(
                    old(self).errors@,
                    final(self).errors@,
                    None,
                ),
                Err(e) => value is None && recorded(
                    old(self).errors@,
                    final(self).errors@,
                    Some(e),
                ),
            },
    {
        self.get_u64(key, true)
    }

    /// The truth value under `key`. Where there is none, nothing is given,
    /// and the reason is recorded if the value is required.
    fn get_bool(&mut self, key: &str, required: bool) -> (value: Option<bool>)
        ensures
            final(self).attrs == old(self).attrs,
            match find_bool(old(self).attrs@, key@) {
                Ok(b) => value == Some(b) && recorded(
                    old(self).errors@,
                    final(self).errors@,
                    None,
                ),
                Err(e) => value is None && recorded(
                    old(self).errors@,
                    final(self).errors@,
                    when_required(required, e),
                ),
            },
    {
        match self.get_string(key, required) {
            Some(s) => {
                let text = s.as_str();
                if str_eq(text, "1") || str_eq(text, "t") || str_eq(text, "T") || str_eq(
                    text,
                    "true",
                ) || str_eq(text, "TRUE") || str_eq(text, "True") {
                    Some(true)
                } else if str_eq(text, "0") || str_eq(text, "f") || str_eq(text, "F") || str_eq(
                    text,
                    "false",
                ) || str_eq(text, "FALSE") || str_eq(text, "False") {
                    Some(false)
                } else {
                    if required {
                        self.record(
                            describe(
                                "failed to parse bool in attribute '",
                                key,
                                "'",
                                None,
                                "AttrUtility::get_bool",
                            ),
                        );
                    }
                    None
                }
            },
            None => None,
        }
    }

    /// The truth value under `key`, if there is one. Records no error.
    pub fn optional_bool(&mut self, key: &str) -> (value: Option<bool>)
        ensures
            final(self).attrs == old(self).attrs,
            recorded(old(self).errors@, final(self).errors@, None),
            match find_bool(old(self).attrs@, key@) {
                Ok(b) => value == Some(b),
                Err(_) => value is None,
            },
    {
        self.get_bool(key, false)
    }

    /// The truth value under `key`. Where there is none, nothing is given
    /// and the reason is recorded.
    pub fn bool(&mut self, key: &str) -> (value: Option<bool>)
        ensures
            final(self).attrs == old(self).attrs,
            match find_bool(old(self).attrs@, key@) {
                Ok(b) => value == Some(b) && recorded(
                    old(self).errors@,
                    final(self).errors@,
                    None,
                ),
                Err(e) => value is None && recorded(
                    old(self).errors@,
                    final(self).errors@,
                    Some(e),
                ),
            },
    {
        self.get_bool(key, true)
    }

    /// The instant under `key`, given as seconds after the Unix epoch.
    /// Where there is no number, nothing is given, and the reason is
    /// recorded if the value is required. Where the number is an instant
    /// that cannot be held, nothing is given and nothing recorded.
    fn get_unix_time(&mut self, key: &str, required: bool) -> (value: Option<UnixTime>)
        ensures
            final(self).attrs == old(self).attrs,
            match find_i64(old(self).attrs@, key@) {
                Ok(seconds) => value == unix_time_of(seconds) && recorded(
                    old(self).errors@,
                    final(self).errors@,
                    None,
                ),
                Err(e) => value is None && recorded(
                    old(self).errors@,
                    final(self).errors@,
                    when_required(required, e),
                ),
            },
    {
        match self.get_i64(key, required) {
            Some(ts) => unix_time_from(ts, unix_timestamp_in_range(ts)),
            None => None,
        }
    }

    /// The instant under `key`, if there is one. Records no error.
    pub fn optional_unix_time(&mut self, key: &str) -> (value: Option<UnixTime>)
        ensures
            final(self).attrs == old(self).attrs,
            recorded(old(self).errors@, final(self).errors@, None),
            match find_i64(old(self).attrs@, key@) {
                Ok(seconds) => value == unix_time_of(seconds),
                Err(_) => value is None,
            },
    {
        self.get_unix_time(key, false)
    }

    /// The instant under `key`. Where there is no number, nothing is given
    /// and the reason is recorded.
    pub fn unix_time(&mut self, key: &str) -> (value: Option<UnixTime>)
        ensures
            final(self).attrs == old(self).attrs,
            match find_i64(old(self).attrs@, key@) {
                Ok(seconds) => value == unix_time_of(seconds) && recorded(
                    old(self).errors@,
                    final(self).errors@,
                    None,
                ),
                Err(e) => value is None && recorded(
                    old(self).errors@,
                    final(self).errors@,
                    Some(e),
                ),
            },
    {
        self.get_unix_time(key, true)
    }

    /// The low 32 bits of the signed number under `key`, if there is one.
    /// Records no error.
    pub fn optional_i32(&mut self, key: &str) -> (value: Option<i32>)
        ensures
            final(self).attrs == old(self).attrs,
            recorded(old(self).errors@, final(self).errors@, None),
            match find_i64(old(self).attrs@, key@) {
                Ok(number) => value == Some(number as i32),
                Err(_) => value is None,
            },
    {
        match self.get_i64(key, false) {
            Some(i) => Some(#[verifier::truncate] (i as i32)),
            None => None,
        }
    }

    /// The low 32 bits of the signed number under `key`. Where there is no
    /// number, nothing is given and the reason is recorded.
    pub fn i32(&mut self, key: &str) -> (value: Option<i32>)
        ensures
            final(self).attrs == old(self).attrs,
            match find_i64(old(self).attrs@, key@) {
                Ok(number) => value == Some(number as i32) && recorded(
                    old(self).errors@,
                    final(self).errors@,
                    None,
                ),
                Err(e) => value is None && recorded(
                    old(self).errors@,
                    final(self).errors@,
                    Some(e),
                ),
            },
    {
        match self.get_i64(key, true) {
            Some(i) => Some(#[verifier::truncate] (i as i32)),
            None => None,
        }
    }

    /// Whether no error was recorded.
    pub fn ok(&self) -> (none: bool)
        ensures
            none == (self.errors@.len() == 0),
    {
        self.errors.len() == 0
    }

    /// The recorded errors as one, where there is any.
    pub fn error(&self) -> (all: Option<RhustAppError>)
        ensures
            match all {
                Some(e) => aggregate(errors_view(self.errors@)) == Some(e@),
                None => aggregate(errors_view(self.errors@)) is None,
            },
    {
        if self.ok() {
            return None;
        }
        let ghost views = errors_view(self.errors@);
        proof {
            reveal_strlit("[");
            reveal_strlit(" ");
            reveal_strlit(", ");
            reveal_strlit(" ]");
            assert("["@ =~= seq!['[']);
            assert(" "@ =~= seq![' ']);
            assert(", "@ =~= seq![',', ' ']);
            assert(" ]"@ =~= seq![' ', ']']);
        }
        let mut error_string = String::new();
        error_string.append("[");
        let mut i: usize = 0;
        assert(error_string@ =~= error_list(views, 0));
        while i < self.errors.len()
            invariant
                i <= self.errors.len(),
                views == errors_view(self.errors@),
                " "@ == seq![' '],
                ", "@ == seq![',', ' '],
                error_string@ == error_list(views, i as int),
            decreases self.errors.len() - i,
        {
            if i == 0 {
                error_string.append(" ");
            } else {
                error_string.append(", ");
            }
            let text = self.errors[i].to_string();
            error_string.append(text.as_str());
            assert(views[i as int] == self.errors@[i as int]@);
            assert(error_string@ =~= error_list(views, i + 1));
            i += 1;
        }
        error_string.append(" ]");
        Some(
            RhustAppError {
                description: "error(s) occured while fetching attributes".to_owned(),
                error: Some(error_string),
                location: "AttrUtility::error".to_owned(),
            },
        )
    }
}

impl Node {
    /// A reader of the attributes of the element, with no error yet.
    pub fn attr_getter(&self) -> (getter: AttrUtility<'_>)
        ensures
            getter.attrs@ == self@.attrs,
            getter.errors@.len() == 0,
    {
        AttrUtility { attrs: &self.attrs, errors: Vec::new() }
    }
}

/// A key without a value is found by no getter: each has a reason why
/// there is none.
pub proof fn law_missing_attribute(attrs: Seq<AttrEntryView>, key: Seq<char>)
    requires
        attrs_get(attrs, key) is None,
    ensures
        find_jid(attrs, key) is Err,
        find_string(attrs, key) is Err,
        find_i64(attrs, key) is Err,
        find_u64(attrs, key) is Err,
        find_bool(attrs, key) is Err,
{
}

/// Where a failure is recorded, there is exactly one error more, and it
/// is the last; where none is, the errors are as many as before.
pub proof fn law_one_error_recorded(
    before: Seq<RhustAppError>,
    after: Seq<RhustAppError>,
    failure: Option<ErrorView>,
)
    requires
        recorded(before, after, failure),
    ensures
        failure is Some ==> after.len() == before.len() + 1 && after.last()@ == failure->0,
        failure is None ==> after.len() == before.len(),
{
    assert(errors_view(after).len() == after.len());
    assert(errors_view(before).len() == before.len());
    if failure is Some {
        assert(errors_view(after)[after.len() - 1] == after[after.len() - 1]@);
    }
}

} // verus!
