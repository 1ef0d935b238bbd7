//! Identifiers of users, groups, broadcast lists and devices.

use crate::text::{
    decimal_text, find_char, index_of_char, IntErrorKind, law_decimal_text_parses,
    lemma_decimal_digits_hold_no, lemma_index_of_char, lemma_index_of_char_concat, parse_int,
    parse_u64, parse_u8, str_chars, str_eq, u64_to_string,
};
use vstd::prelude::*;
use vstd::std_specs::cmp::PartialEqSpecImpl;
use vstd::string::*;

verus! {

/// Default server for users.
pub const DEFAULT_USER_SERVER: &'static str = "s.whatsapp.net";

/// Server for groups.
pub const GROUP_SERVER: &'static str = "g.us";

/// Old server for users.
pub const LEGACY_USER_SERVER: &'static str = "c.us";

/// Server for broadcasts.
pub const BROADCAST_SERVER: &'static str = "broadcast";

/// Server for hidden users.
pub const HIDDEN_USER_SERVER: &'static str = "lid";

/// A user or group identifier. There are two forms: a pair of user and
/// server, which can name an entity on any server, and the form with agent
/// and device, which names one device of a user and whose server is always
/// `DEFAULT_USER_SERVER`.
#[derive(Debug)]
pub struct JID {
    pub user: String,
    pub agent: Option<u8>,
    pub device: Option<u8>,
    pub server: String,
}

/// What a `JID` holds, as plain values.
pub struct JidView {
    pub user: Seq<char>,
    pub agent: Option<u8>,
    pub device: Option<u8>,
    pub server: Seq<char>,
}

impl JidView {
    /// The pair form.
    pub open spec fn pair(user: Seq<char>, server: Seq<char>) -> JidView {
        JidView { user, agent: None, device: None, server }
    }

    /// The form with agent and device.
    pub open spec fn ad(user: Seq<char>, agent: u8, device: u8) -> JidView {
        JidView { user, agent: Some(agent), device: Some(device), server: DEFAULT_USER_SERVER@ }
    }

    /// Whether both agent and device are present.
    pub open spec fn is_ad(self) -> bool {
        self.agent is Some && self.device is Some
    }

    /// The invariant of identifiers: agent and device come together, and
    /// then the server is the default user server.
    pub open spec fn wf(self) -> bool {
        &&& self.agent is Some <==> self.device is Some
        &&& self.is_ad() ==> self.server == DEFAULT_USER_SERVER@
    }

    /// The canonical text: `user.agent:device@server`, `user@server`, or
    /// the server alone where there is no user.
    pub open spec fn text(self) -> Seq<char> {
        if self.is_ad() {
            self.user + seq!['.'] + decimal_text(self.agent->0 as int) + seq![':'] + decimal_text(
                self.device->0 as int,
            ) + seq!['@'] + self.server
        } else if self.user.len() > 0 {
            self.user + seq!['@'] + self.server
        } else {
            self.server
        }
    }

    /// The pair form of the same user: for the form with agent and device,
    /// the user on the default user server.
    pub open spec fn non_ad(self) -> JidView {
        if self.is_ad() {
            JidView::pair(self.user, DEFAULT_USER_SERVER@)
        } else {
            self
        }
    }

    /// The name under which the Signal protocol knows the user: the user,
    /// followed by `_` and the agent where there is one.
    pub open spec fn signal_name(self) -> Seq<char> {
        match self.agent {
            Some(agent) => self.user + seq!['_'] + decimal_text(agent as int),
            None => self.user,
        }
    }
}

impl View for JID {
    type V = JidView;

    open spec fn view(&self) -> JidView {
        JidView { user: self.user@, agent: self.agent, device: self.device, server: self.server@ }
    }
}

impl Clone for JID {
    fn clone(&self) -> (copy: Self)
        ensures
            copy@ == self@,
    {
        JID {
            user: self.user.clone(),
            agent: self.agent,
            device: self.device,
            server: self.server.clone(),
        }
    }
}

impl Default for JID {
    fn default() -> (jid: Self)
        ensures
            jid@ == JidView::pair(Seq::empty(), Seq::empty()),
    {
        JID { user: String::new(), agent: None, device: None, server: String::new() }
    }
}

impl PartialEq for JID {
    fn eq(&self, other: &Self) -> (same: bool) {
        self.user == other.user && self.agent == other.agent && self.device == other.device
            && self.server == other.server
    }
}

impl PartialEqSpecImpl for JID {
    open spec fn obeys_eq_spec() -> bool {
        true
    }

    open spec fn eq_spec(&self, other: &Self) -> bool {
        self@ == other@
    }
}

/// The address of a device in the Signal protocol.
#[derive(Debug)]
pub struct SignalAddress {
    pub name: String,
    pub device_id: u32,
}

/// Why a text is not an identifier.
#[derive(Clone, Copy, Debug, PartialEq, Eq, Structural)]
pub enum JidError {
    /// The user part lacks the `.` or the `:`.
    MissingSeparators,
    /// The `:` of the user part stands before its `.`.
    SeparatorsOutOfOrder,
    /// What stands between `.` and `:` is no unsigned byte.
    InvalidAgent(IntErrorKind),
    /// What stands after `:` is no unsigned byte.
    InvalidDevice(IntErrorKind),
}

impl JidError {
    /// The message of each error.
    pub open spec fn message(self) -> Seq<char> {
        match self {
            Self::MissingSeparators => "missing separators ('.', ':')"@,
            Self::SeparatorsOutOfOrder => "separators ('.', ':') not in correct order"@,
            Self::InvalidAgent(_) => "failed to parse agent string to u8"@,
            Self::InvalidDevice(_) => "failed to parse device string to u8"@,
        }
    }

    /// Renders the error as its message.
    pub fn to_string(&self) -> (text: String)
        ensures
            text@ == self.message(),
    {
        match self {
            Self::MissingSeparators => "missing separators ('.', ':')".to_owned(),
            Self::SeparatorsOutOfOrder => "separators ('.', ':') not in correct order".to_owned(),
            Self::InvalidAgent(_) => "failed to parse agent string to u8".to_owned(),
            Self::InvalidDevice(_) => "failed to parse device string to u8".to_owned(),
        }
    }
}

/// The part of `s` before its first `@`, or all of `s` where it has none.
pub open spec fn up_to_at(s: Seq<char>) -> Seq<char> {
    match index_of_char(s, '@', 0) {
        Some(at) => s.subrange(0, at),
        None => s,
    }
}

/// The identifier that the user part `user` of a text denotes, on the
/// default user server: the user up to the first `.`, the agent between
/// that `.` and the first `:`, the device after the `:`.
pub open spec fn parse_ad_jid_spec(user: Seq<char>) -> Result<JidView, JidError> {
    match (index_of_char(user, '.', 0), index_of_char(user, ':', 0)) {
        (Some(dot), Some(colon)) => {
            if colon < dot {
                Err(JidError::SeparatorsOutOfOrder)
            } else {
                match parse_int(user.subrange(dot + 1, colon), 0, 255) {
                    Err(e) => Err(JidError::InvalidAgent(e)),
                    Ok(agent) => match parse_int(
                        user.subrange(colon + 1, user.len() as int),
                        0,
                        255,
                    ) {
                        Err(e) => Err(JidError::InvalidDevice(e)),
                        Ok(device) => Ok(
                            JidView::ad(user.subrange(0, dot), agent as u8, device as u8),
                        ),
                    },
                }
            }
        },
        _ => Err(JidError::MissingSeparators),
    }
}

/// The identifier that a text denotes. A text without `@` is a server. In
/// any other, the user stands before the first `@` and the server after it,
/// up to a second `@`. Where the user holds both `.` and `:` and the server
/// is the default user server, the text names a device.
pub open spec fn parse_jid_spec(s: Seq<char>) -> Result<JidView, JidError> {
    match index_of_char(s, '@', 0) {
        None => Ok(JidView::pair(Seq::empty(), s)),
        Some(at) => {
            let user = s.subrange(0, at);
            let server = up_to_at(s.subrange(at + 1, s.len() as int));
            if index_of_char(user, ':', 0) is Some && index_of_char(user, '.', 0) is Some
                && server == DEFAULT_USER_SERVER@ {
                parse_ad_jid_spec(user)
            } else {
                Ok(JidView::pair(user, server))
            }
        },
    }
}

impl JID {
    /// Creates an identifier of the pair form.
    pub fn new(user: &str, server: &str) -> (jid: Self)
        ensures
            jid@ == JidView::pair(user@, server@),
    {
        JID { user: user.to_owned(), agent: None, device: None, server: server.to_owned() }
    }

    /// Creates the identifier of one device of a user.
    pub fn new_ad(user: &str, agent: u8, device: u8) -> (jid: Self)
        ensures
            jid@ == JidView::ad(user@, agent, device),
            jid@.wf(),
    {
        JID {
            user: user.to_owned(),
            agent: Some(agent),
            device: Some(device),
            server: DEFAULT_USER_SERVER.to_owned(),
        }
    }

    /// Whether the identifier names a device.
    pub fn is_ad(&self) -> (ad: bool)
        ensures
            ad == self@.is_ad(),
    {
        self.agent.is_some() && self.device.is_some()
    }

    /// Whether the identifier names a broadcast list other than the status
    /// broadcast.
    pub fn is_broadcast_list(&self) -> (list: bool)
        ensures
            list == (self.server@ == BROADCAST_SERVER@ && self.user@ != "status"@),
    {
        str_eq(self.server.as_str(), BROADCAST_SERVER) && !str_eq(self.user.as_str(), "status")
    }

    /// Whether the identifier has a server.
    pub fn is_empty(&self) -> (has_server: bool)
        ensures
            has_server == (self.server@.len() != 0),
    {
        !self.server.as_str().is_empty()
    }

    /// The user as a number, where it is the decimal text of one that fits
    /// in 64 bits.
    pub fn user_int(&self) -> (number: Option<u64>)
        ensures
            match number {
                Some(n) => parse_int(self.user@, 0, u64::MAX as int) == Ok::<int, IntErrorKind>(
                    n as int,
                ),
                None => parse_int(self.user@, 0, u64::MAX as int) is Err,
            },
    {
        match parse_u64(self.user.as_str()) {
            Ok(n) => Some(n),
            Err(_) => None,
        }
    }

    /// The identifier without agent and device.
    pub fn to_non_ad(&self) -> (jid: Self)
        ensures
            jid@ == self@.non_ad(),
    {
        if self.is_ad() {
            JID {
                user: self.user.clone(),
                agent: None,
                device: None,
                server: DEFAULT_USER_SERVER.to_owned(),
            }
        } else {
            self.clone()
        }
    }

    /// The address of the device in the Signal protocol: the device is 0
    /// where the identifier has none.
    pub fn signal_address(&self) -> (address: SignalAddress)
        ensures
            address.name@ == self@.signal_name(),
            address.device_id == match self.device {
                Some(device) => device as u32,
                None => 0u32,
            },
    {
        let name = match self.agent {
            Some(agent) => {
                proof {
                    reveal_strlit("_");
                    assert("_"@ =~= seq!['_']);
                }
                let number = u64_to_string(agent as u64);
                self.user.clone().concat("_").concat(number.as_str())
            },
            None => self.user.clone(),
        };
        let device_id: u32 = match self.device {
            Some(device) => device as u32,
            None => 0,
        };
        SignalAddress { name, device_id }
    }

    /// The canonical text of the identifier.
    pub fn to_string(&self) -> (text: String)
        ensures
            text@ == self@.text(),
    {
        proof {
            reveal_strlit(".");
            reveal_strlit(":");
            reveal_strlit("@");
            assert("."@ =~= seq!['.']);
            assert(":"@ =~= seq![':']);
            assert("@"@ =~= seq!['@']);
        }
        match (self.agent, self.device) {
            (Some(agent), Some(device)) => {
                let agent_text = u64_to_string(agent as u64);
                let device_text = u64_to_string(device as u64);
                self.user.clone().concat(".").concat(agent_text.as_str()).concat(":").concat(
                    device_text.as_str(),
                ).concat("@").concat(self.server.as_str())
            },
            _ => {
                if !self.user.as_str().is_empty() {
                    self.user.clone().concat("@").concat(self.server.as_str())
                } else {
                    self.server.clone()
                }
            },
        }
    }

    /// Reads an identifier from its text.
    pub fn from_str(s: &str) -> (parsed: Result<Self, JidError>)
        ensures
            match parsed {
                Ok(jid) => parse_jid_spec(s@) == Ok::<JidView, JidError>(jid@),
                Err(e) => parse_jid_spec(s@) == Err::<JidView, JidError>(e),
            },
    {
        let chars = str_chars(s);
        let n = chars.len();
        proof {
            reveal_strlit("");
            assert(""@ =~= Seq::<char>::empty());
        }
        match find_char(&chars, '@', 0) {
            None => Ok(JID::new("", s)),
            Some(at) => {
                let user = s.substring_char(0, at);
                let rest = s.substring_char(at + 1, n);
                let rest_chars = str_chars(rest);
                let server = match find_char(&rest_chars, '@', 0) {
                    Some(end) => rest.substring_char(0, end),
                    None => rest,
                };
                let user_chars = str_chars(user);
                if find_char(&user_chars, ':', 0).is_some() && find_char(
                    &user_chars,
                    '.',
                    0,
                ).is_some() && str_eq(server, DEFAULT_USER_SERVER) {
                    parse_ad_jid(user)
                } else {
                    Ok(JID::new(user, server))
                }
            },
        }
    }
}

/// Reads the user part of the text of a device identifier.
pub fn parse_ad_jid(user: &str) -> (parsed: Result<JID, JidError>)
    ensures
        match parsed {
            Ok(jid) => parse_ad_jid_spec(user@) == Ok::<JidView, JidError>(jid@) && jid@.wf(),
            Err(e) => parse_ad_jid_spec(user@) == Err::<JidView, JidError>(e),
        },
{
    let chars = str_chars(user);
    let n = chars.len();
    let dot = match find_char(&chars, '.', 0) {
        Some(i) => i,
        None => {
            return Err(JidError::MissingSeparators);
        },
    };
    let colon = match find_char(&chars, ':', 0) {
        Some(i) => i,
        None => {
            return Err(JidError::MissingSeparators);
        },
    };
    if colon < dot {
        return Err(JidError::SeparatorsOutOfOrder);
    }
    let agent = match parse_u8(user.substring_char(dot + 1, colon)) {
        Ok(agent) => agent,
        Err(e) => {
            return Err(JidError::InvalidAgent(e));
        },
    };
    let device = match parse_u8(user.substring_char(colon + 1, n)) {
        Ok(device) => device,
        Err(e) => {
            return Err(JidError::InvalidDevice(e));
        },
    };
    Ok(JID::new_ad(user.substring_char(0, dot), agent, device))
}

/// The identifier with neither user nor server.
pub fn empty_jid() -> (jid: JID)
    ensures
        jid@ == JidView::pair(Seq::empty(), Seq::empty()),
{
    proof {
        reveal_strlit("");
        assert(""@ =~= Seq::<char>::empty());
    }
    JID::new("", "")
}

/// The group server itself.
pub fn group_server_jid() -> (jid: JID)
    ensures
        jid@ == JidView::pair(Seq::empty(), GROUP_SERVER@),
{
    proof {
        reveal_strlit("");
        assert(""@ =~= Seq::<char>::empty());
    }
    JID::new("", GROUP_SERVER)
}

/// The default user server itself.
pub fn server_jid() -> (jid: JID)
    ensures
        jid@ == JidView::pair(Seq::empty(), DEFAULT_USER_SERVER@),
{
    proof {
        reveal_strlit("");
        assert(""@ =~= Seq::<char>::empty());
    }
    JID::new("", DEFAULT_USER_SERVER)
}

/// The broadcast server itself.
pub fn broadcast_server_jid() -> (jid: JID)
    ensures
        jid@ == JidView::pair(Seq::empty(), BROADCAST_SERVER@),
{
    proof {
        reveal_strlit("");
        assert(""@ =~= Seq::<char>::empty());
    }
    JID::new("", BROADCAST_SERVER)
}

/// The broadcast list of status updates.
pub fn status_broadcast_jid() -> (jid: JID)
    ensures
        jid@ == JidView::pair("status"@, BROADCAST_SERVER@),
{
    JID::new("status", BROADCAST_SERVER)
}

/// The official announcements chat.
pub fn psa_jid() -> (jid: JID)
    ensures
        jid@ == JidView::pair("0"@, LEGACY_USER_SERVER@),
{
    JID::new("0", LEGACY_USER_SERVER)
}

/// The official business chat.
pub fn official_business_jid() -> (jid: JID)
    ensures
        jid@ == JidView::pair("16505361212"@, LEGACY_USER_SERVER@),
{
    JID::new("16505361212", LEGACY_USER_SERVER)
}

/// Whether a text holds the character.
pub open spec fn holds(s: Seq<char>, c: char) -> bool {
    index_of_char(s, c, 0) is Some
}

/// The first occurrence of a character in a text that begins with one
/// without it and goes on with the character.
proof fn lemma_first_after(a: Seq<char>, c: char, b: Seq<char>)
    requires
        !holds(a, c),
    ensures
        index_of_char(a + seq![c] + b, c, 0) == Some(a.len() as int),
        (a + seq![c] + b).subrange(0, a.len() as int) == a,
        (a + seq![c] + b).subrange(a.len() as int + 1, (a + seq![c] + b).len() as int) == b,
{
    let s = a + seq![c] + b;
    assert(s =~= a + (seq![c] + b));
    lemma_index_of_char_concat(a, seq![c] + b, c);
    lemma_index_of_char(seq![c] + b, c, 0);
    assert((seq![c] + b)[0] == c);
    assert(s.subrange(0, a.len() as int) =~= a);
    assert(s.subrange(a.len() as int + 1, s.len() as int) =~= b);
}

/// The canonical text of an identifier is read back as the identifier:
/// where neither user nor server holds an `@`, the user of an identifier of
/// a device holds neither `.` nor `:`, and the text of a pair is not taken
/// for that of a device.
pub proof fn law_text_parses(jid: JidView)
    requires
        jid.wf(),
        !holds(jid.user, '@'),
        !holds(jid.server, '@'),
        jid.is_ad() ==> !holds(jid.user, '.') && !holds(jid.user, ':'),
        !jid.is_ad() ==> !(holds(jid.user, ':') && holds(jid.user, '.') && jid.server
            == DEFAULT_USER_SERVER@),
    ensures
        parse_jid_spec(jid.text()) == Ok::<JidView, JidError>(jid),
{
    let text = jid.text();
    if jid.is_ad() {
        let agent = decimal_text(jid.agent->0 as int);
        let device = decimal_text(jid.device->0 as int);
        let behind_dot = agent + seq![':'] + device;
        let user = jid.user + seq!['.'] + behind_dot;
        assert(text =~= user + seq!['@'] + jid.server);
        lemma_decimal_digits_hold_no(jid.agent->0 as nat, '@');
        lemma_decimal_digits_hold_no(jid.agent->0 as nat, ':');
        lemma_decimal_digits_hold_no(jid.device->0 as nat, '@');
        // The user part holds no `@`.
        lemma_first_after(agent, ':', device);
        lemma_index_of_char_concat(agent, seq![':'] + device, '@');
        lemma_index_of_char_concat(seq![':'], device, '@');
        lemma_index_of_char(seq![':'], '@', 0);
        assert(behind_dot =~= agent + (seq![':'] + device));
        lemma_index_of_char_concat(jid.user, seq!['.'] + behind_dot, '@');
        lemma_index_of_char_concat(seq!['.'], behind_dot, '@');
        lemma_index_of_char(seq!['.'], '@', 0);
        assert(user =~= jid.user + (seq!['.'] + behind_dot));
        assert(!holds(user, '@'));
        lemma_first_after(user, '@', jid.server);
        // Within the user part, the `.` stands behind the user and the `:`
        // behind the agent.
        lemma_first_after(jid.user, '.', behind_dot);
        lemma_index_of_char_concat(jid.user, seq!['.'] + behind_dot, ':');
        lemma_index_of_char_concat(seq!['.'], behind_dot, ':');
        lemma_index_of_char(seq!['.'], ':', 0);
        let dot = jid.user.len() as int;
        let colon = dot + 1 + agent.len();
        assert(index_of_char(user, '.', 0) == Some(dot));
        assert(index_of_char(user, ':', 0) == Some(colon));
        assert(user.subrange(dot + 1, colon) =~= agent);
        assert(user.subrange(colon + 1, user.len() as int) =~= device);
        assert(user.subrange(0, dot) =~= jid.user);
        law_decimal_text_parses(jid.agent->0 as int, 0, 255);
        law_decimal_text_parses(jid.device->0 as int, 0, 255);
        lemma_index_of_char(jid.server, '@', 0);
        assert(up_to_at(jid.server) == jid.server);
        assert(parse_ad_jid_spec(user) == Ok::<JidView, JidError>(jid));
    } else if jid.user.len() > 0 {
        assert(text == jid.user + seq!['@'] + jid.server);
        lemma_first_after(jid.user, '@', jid.server);
        assert(up_to_at(jid.server) == jid.server);
        assert(JidView::pair(jid.user, jid.server) == jid);
    } else {
        assert(jid.user =~= Seq::<char>::empty());
        assert(JidView::pair(Seq::empty(), jid.server) == jid);
    }
}

} // verus!
