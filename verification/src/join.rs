//! Joining a room: the configuration a client joins with and the join
//! request built from it.
use vstd::prelude::*;
use vstd::utf8::encode_utf8;
use core::time::Duration;
use crate::text::{is_lower_hex_digit, lemma_lower_hex};
use crate::protocol::{Message, MessageView, uMessage};
use crate::text::{lower_hex, decimal, push_decimal, to_lower_hex};

verus! {

/// The rank a member claims when joining.
#[derive(Debug, Eq, PartialEq, Clone, Structural)]
pub enum UChatAuthLevel {
    Admin,
    SubAdmin,
    Member,
    Guest,
    NoLevel,
}

/// The name of a rank as the server spells it; no rank has the empty name.
pub open spec fn auth_text(a: UChatAuthLevel) -> Seq<char> {
    match a {
        UChatAuthLevel::NoLevel => Seq::empty(),
        UChatAuthLevel::Admin => "admin"@,
        UChatAuthLevel::SubAdmin => "subadmin"@,
        UChatAuthLevel::Member => "member"@,
        UChatAuthLevel::Guest => "guest"@,
    }
}

impl UChatAuthLevel {
    /// The name of the rank (see `auth_text`).
    pub fn to_string(&self) -> (r: String)
        ensures
            r@ == auth_text(*self),
    {
        match self {
            UChatAuthLevel::NoLevel => String::new(),
            UChatAuthLevel::Admin => String::from_str("admin"),
            UChatAuthLevel::SubAdmin => String::from_str("subadmin"),
            UChatAuthLevel::Member => String::from_str("member"),
            UChatAuthLevel::Guest => String::from_str("guest"),
        }
    }
}

/// What a client joins a room with.
pub struct JoinConfig {
    pub room: String,
    pub token: Option<String>,
    pub nick: Option<String>,
    pub id: Option<String>,
    pub level: Option<String>,
    pub auth: UChatAuthLevel,
    pub icon: Option<String>,
    pub nickcon: Option<String>,
    pub other: Option<String>,
    pub password: Option<String>,
    pub cache_token: Option<String>,
    pub profile_image: Option<String>,
}

/// The characters of an optional string.
pub open spec fn opt_chars(o: Option<String>) -> Option<Seq<char>> {
    match o {
        Some(s) => Some(s@),
        None => None,
    }
}

/// The characters of an optional string, or none at all.
pub open spec fn chars_or_empty(o: Option<Seq<char>>) -> Seq<char> {
    match o {
        Some(s) => s,
        None => Seq::empty(),
    }
}

/// A text message for a present value, the empty message otherwise.
pub open spec fn text_or_null(o: Option<Seq<char>>) -> MessageView {
    match o {
        Some(s) => MessageView::Text(s),
        None => MessageView::Null,
    }
}

/// A present value followed by the separator; nothing for an absent one.
pub open spec fn part(o: Option<Seq<char>>, sep: Seq<char>) -> Seq<char> {
    match o {
        Some(s) => s + sep,
        None => Seq::empty(),
    }
}

/// The text that the join hash is taken of: the present values in the order
/// auth, icon, id, level, nick, nickcon, other, room, time, each followed by
/// the token, and the token once more at the end.
pub open spec fn implode_spec(c: JoinConfig, token: Seq<char>, time: Seq<char>) -> Seq<char> {
    (if c.auth == UChatAuthLevel::NoLevel {
        Seq::empty()
    } else {
        auth_text(c.auth) + token
    }) + part(opt_chars(c.icon), token) + part(opt_chars(c.id), token) + part(
        opt_chars(c.level),
        token,
    ) + part(opt_chars(c.nick), token) + part(opt_chars(c.nickcon), token) + part(
        opt_chars(c.other),
        token,
    ) + c.room@ + token + time + token + token
}

/// The fields of a join request: `j`, room, nick, id, level, rank, icon,
/// nick style, other, hash, session id, charset, time, password, cached
/// client token, profile image. Absent optional values are sent as empty
/// texts or as empty messages.
pub open spec fn join_fields(
    c: JoinConfig,
    session: Seq<char>,
    time: Option<Seq<char>>,
    hash: Seq<char>,
) -> Seq<MessageView> {
    seq![
        MessageView::Text("j"@),
        MessageView::Text(c.room@),
        MessageView::Text(chars_or_empty(opt_chars(c.nick))),
        MessageView::Text(chars_or_empty(opt_chars(c.id))),
        MessageView::Text(chars_or_empty(opt_chars(c.level))),
        MessageView::Text(auth_text(c.auth)),
        MessageView::Text(chars_or_empty(opt_chars(c.icon))),
        MessageView::Text(chars_or_empty(opt_chars(c.nickcon))),
        text_or_null(opt_chars(c.other)),
        MessageView::Text(hash),
        MessageView::Text(session),
        MessageView::Text("utf-8"@),
        MessageView::Text(chars_or_empty(time)),
        text_or_null(opt_chars(c.password)),
        text_or_null(opt_chars(c.cache_token)),
        text_or_null(opt_chars(c.profile_image)),
    ]
}

/// The MD5 digest of a byte sequence.
pub uninterp spec fn md5_digest(data: Seq<u8>) -> Seq<u8>;

/// `md5::compute`, its 16 bytes. The contract claims that the digest is a
/// function of the data and 16 bytes long; what MD5 computes is left unsaid.
#[verifier::external_body]
fn md5_compute(data: &[u8]) -> (r: Vec<u8>)
    ensures
        r@ == md5_digest(data@),
        r@.len() == 16,
{
    md5::compute(data).0.to_vec()
}

/// The join hash of a configuration with a token, at the given time.
pub open spec fn join_hash_spec(c: JoinConfig, token: Seq<char>, time: Seq<char>) -> Seq<char> {
    lower_hex(md5_digest(encode_utf8(implode_spec(c, token, time))))
}

/// The join request of a configuration, with the given session id, at the
/// given time in seconds since the epoch. Without a token the hash and the
/// time stay empty.
pub open spec fn join_spec(c: JoinConfig, session: Seq<char>, secs: u64) -> Seq<MessageView> {
    match c.token {
        None => join_fields(c, session, None, Seq::empty()),
        Some(token) => join_fields(
            c,
            session,
            Some(decimal(secs as nat)),
            join_hash_spec(c, token@, decimal(secs as nat)),
        ),
    }
}

/// A hash field: a text of 32 lower-case hex digits.
pub open spec fn is_hash_field(m: MessageView) -> bool {
    match m {
        MessageView::Text(h) => h.len() == 32 && forall|i: int|
            0 <= i < h.len() ==> is_lower_hex_digit(#[trigger] h[i]),
        _ => false,
    }
}

/// A character of `A`-`Z`, `a`-`z` or `0`-`9`.
pub open spec fn is_alphanumeric(c: char) -> bool {
    ('0' <= c <= '9') || ('A' <= c <= 'Z') || ('a' <= c <= 'z')
}

/// A session id: 32 alphanumeric characters.
pub open spec fn is_session_id(s: Seq<char>) -> bool {
    s.len() == 32 && forall|i: int| 0 <= i < s.len() ==> is_alphanumeric(#[trigger] s[i])
}

/// rand: `len` samples of `Alphanumeric` from `thread_rng`, as characters.
/// The contract claims only what holds of every outcome: the length and that
/// every character is an ASCII letter or digit.
#[verifier::external_body]
fn random_alphanumeric(len: usize) -> (r: String)
    ensures
        r@.len() == len,
        forall|i: int| 0 <= i < r@.len() ==> is_alphanumeric(#[trigger] r@[i]),
{
    rand::Rng::sample_iter(rand::thread_rng(), rand::distributions::Alphanumeric).take(len).map(
        char::from,
    ).collect()
}

/// `SystemTime::UNIX_EPOCH.elapsed()`: the time since the epoch, `None` when
/// the clock reads earlier. Nothing is claimed of the reading.
#[verifier::external_body]
fn clock_since_epoch() -> Option<Duration> {
    std::time::SystemTime::UNIX_EPOCH.elapsed().ok()
}

/// `Duration::as_secs`: the whole seconds of a duration. Nothing is claimed of
/// the value.
#[verifier::external_body]
fn duration_as_secs(d: &Duration) -> u64 {
    d.as_secs()
}

/// `Duration::subsec_nanos`: the nanoseconds past the whole seconds, which its
/// documentation says are less than one billion.
#[verifier::external_body]
fn duration_subsec_nanos(d: &Duration) -> (r: u32)
    ensures
        r < 1_000_000_000,
{
    d.subsec_nanos()
}

/// A span of time: `secs` seconds and `nanos` nanoseconds.
#[derive(Clone, Copy, Debug, PartialEq, Eq, Structural)]
pub struct TimeSpan {
    pub secs: u64,
    pub nanos: u32,
}

impl TimeSpan {
    /// The span of `secs` seconds and `nanos` nanoseconds.
    pub open spec fn new_spec(secs: u64, nanos: u32) -> Self {
        TimeSpan { secs: secs, nanos: nanos }
    }

    /// The span of `secs` seconds and `nanos` nanoseconds.
    pub fn new(secs: u64, nanos: u32) -> (r: Self)
        ensures
            r == Self::new_spec(secs, nanos),
    {
        TimeSpan { secs, nanos }
    }
}

/// The whole seconds of `clock + delta`, where a missing clock reading counts
/// as zero; a sum past the largest second count stays there.
pub open spec fn shifted_secs_spec(clock: Option<TimeSpan>, delta: TimeSpan) -> u64 {
    let c = match clock {
        Some(t) => t,
        None => TimeSpan { secs: 0, nanos: 0 },
    };
    let total = c.secs + delta.secs + (c.nanos + delta.nanos) / 1_000_000_000;
    if total > u64::MAX {
        u64::MAX
    } else {
        total as u64
    }
}

/// The whole seconds of `clock + delta` (see `shifted_secs_spec`).
pub fn shifted_secs(clock: Option<TimeSpan>, delta: TimeSpan) -> (r: u64)
    ensures
        r == shifted_secs_spec(clock, delta),
{
    let c = match clock {
        Some(t) => t,
        None => TimeSpan { secs: 0, nanos: 0 },
    };
    let carry: u64 = (c.nanos as u64 + delta.nanos as u64) / 1_000_000_000;
    let total: u128 = c.secs as u128 + delta.secs as u128 + carry as u128;
    if total > u64::MAX as u128 {
        u64::MAX
    } else {
        total as u64
    }
}

/// The clock, as the time since the epoch; `None` when it reads earlier.
fn read_clock() -> (r: Option<TimeSpan>)
    ensures
        r matches Some(t) ==> t.nanos < 1_000_000_000,
{
    match clock_since_epoch() {
        Some(d) => Some(TimeSpan { secs: duration_as_secs(&d), nanos: duration_subsec_nanos(&d) }),
        None => None,
    }
}

fn text_or_empty_message(o: &Option<String>) -> (r: Message)
    ensures
        r@ == MessageView::Text(chars_or_empty(opt_chars(*o))),
{
    match o {
        Some(s) => Message::Text(s.clone()),
        None => Message::Text(String::new()),
    }
}

fn text_or_null_message(o: &Option<String>) -> (r: Message)
    ensures
        r@ == text_or_null(opt_chars(*o)),
{
    match o {
        Some(s) => Message::Text(s.clone()),
        None => Message::Null,
    }
}

fn push_part(result: &mut String, o: &Option<String>, token: &str)
    ensures
        final(result)@ == old(result)@ + part(opt_chars(*o), token@),
{
    match o {
        Some(v) => {
            result.append(v.as_str());
            result.append(token);
        },
        None => {},
    }
}

impl JoinConfig {
    /// A configuration for `room` with no other value set and no rank.
    pub fn new(room: String) -> (r: Self)
        ensures
            r == (JoinConfig {
                room: room,
                token: None,
                nick: None,
                id: None,
                level: None,
                auth: UChatAuthLevel::NoLevel,
                icon: None,
                nickcon: None,
                other: None,
                password: None,
                cache_token: None,
                profile_image: None,
            }),
    {
        JoinConfig {
            room,
            token: None,
            nick: None,
            id: None,
            level: None,
            auth: UChatAuthLevel::NoLevel,
            icon: None,
            nickcon: None,
            other: None,
            password: None,
            cache_token: None,
            profile_image: None,
        }
    }

    /// Sets the token.
    pub fn token(self, token: Option<String>) -> (r: Self)
        ensures
            r == (JoinConfig { token: token, ..self }),
    {
        let mut s = self;
        s.token = token;
        s
    }

    /// Sets the nick.
    pub fn nick(self, nick: Option<String>) -> (r: Self)
        ensures
            r == (JoinConfig { nick: nick, ..self }),
    {
        let mut s = self;
        s.nick = nick;
        s
    }

    /// Sets the id.
    pub fn id(self, id: Option<String>) -> (r: Self)
        ensures
            r == (JoinConfig { id: id, ..self }),
    {
        let mut s = self;
        s.id = id;
        s
    }

    /// Sets the level.
    pub fn level(self, level: Option<String>) -> (r: Self)
        ensures
            r == (JoinConfig { level: level, ..self }),
    {
        let mut s = self;
        s.level = level;
        s
    }

    /// Sets the rank.
    pub fn auth(self, auth: UChatAuthLevel) -> (r: Self)
        ensures
            r == (JoinConfig { auth: auth, ..self }),
    {
        let mut s = self;
        s.auth = auth;
        s
    }

    /// Sets the icon.
    pub fn icon(self, icon: Option<String>) -> (r: Self)
        ensures
            r == (JoinConfig { icon: icon, ..self }),
    {
        let mut s = self;
        s.icon = icon;
        s
    }

    /// Sets the nick style.
    pub fn nickcon(self, nickcon: Option<String>) -> (r: Self)
        ensures
            r == (JoinConfig { nickcon: nickcon, ..self }),
    {
        let mut s = self;
        s.nickcon = nickcon;
        s
    }

    /// Sets the free-form value.
    pub fn other(self, other: Option<String>) -> (r: Self)
        ensures
            r == (JoinConfig { other: other, ..self }),
    {
        let mut s = self;
        s.other = other;
        s
    }

    /// Sets the room password.
    pub fn password(self, password: Option<String>) -> (r: Self)
        ensures
            r == (JoinConfig { password: password, ..self }),
    {
        let mut s = self;
        s.password = password;
        s
    }

    /// Sets the cached client token.
    pub fn client_token(self, token: Option<String>) -> (r: Self)
        ensures
            r == (JoinConfig { cache_token: token, ..self }),
    {
        let mut s = self;
        s.cache_token = token;
        s
    }

    /// Sets the profile image.
    pub fn profile_image(self, profile_image: Option<String>) -> (r: Self)
        ensures
            r == (JoinConfig { profile_image: profile_image, ..self }),
    {
        let mut s = self;
        s.profile_image = profile_image;
        s
    }

    /// The text that the join hash is taken of (see `implode_spec`).
    pub fn implode(&self, token: &str, time: &String) -> (r: String)
        ensures
            r@ == implode_spec(*self, token@, time@),
            self.auth != UChatAuthLevel::NoLevel ==> r@ == auth_text(self.auth) + token@
                + implode_spec(JoinConfig { auth: UChatAuthLevel::NoLevel, ..*self }, token@, time@),
            r@.len() >= auth_text(self.auth).len() && r@.take(auth_text(self.auth).len() as int)
                == auth_text(self.auth),
    {
        let mut result = String::new();
        match &self.auth {
            UChatAuthLevel::NoLevel => {},
            auth => {
                let name = auth.to_string();
                result.append(name.as_str());
                result.append(token);
            },
        }
        push_part(&mut result, &self.icon, token);
        push_part(&mut result, &self.id, token);
        push_part(&mut result, &self.level, token);
        push_part(&mut result, &self.nick, token);
        push_part(&mut result, &self.nickcon, token);
        push_part(&mut result, &self.other, token);
        result.append(self.room.as_str());
        result.append(token);
        result.append(time.as_str());
        result.append(token);
        result.append(token);
        assert(result@ =~= implode_spec(*self, token@, time@));
        proof {
            if self.auth != UChatAuthLevel::NoLevel {
                lemma_implode_rank(*self, self.auth, token@, time@);
            }
            assert(result@.take(auth_text(self.auth).len() as int) =~= auth_text(self.auth));
        }
        result
    }

    /// The join hash: the MD5 digest of the imploded text, in lower-case hex.
    pub fn join_hash(&self, token: &str, time: &String) -> (r: String)
        ensures
            r@ == join_hash_spec(*self, token@, time@),
            r@.len() == 32,
            forall|i: int| 0 <= i < r@.len() ==> is_lower_hex_digit(#[trigger] r@[i]),
    {
        let base = self.implode(token, time);
        let digest = md5_compute(base.as_str().as_bytes());
        proof {
            lemma_lower_hex(digest@);
        }
        to_lower_hex(digest.as_slice())
    }

    /// The join request with the given session id, time and hash (see `join_fields`).
    pub fn join_message(&self, session: String, time: Option<String>, hash: String) -> (r: uMessage)
        ensures
            r@ == join_fields(*self, session@, opt_chars(time), hash@),
            r@.len() == 16,
            r@[5] == MessageView::Text(auth_text(self.auth)),
            r@[6] == MessageView::Text(chars_or_empty(opt_chars(self.icon))),
            r@[7] == MessageView::Text(chars_or_empty(opt_chars(self.nickcon))),
            r@[9] == MessageView::Text(hash@),
            r@[10] == MessageView::Text(session@),
    {
        let mut buf = uMessage::new();
        buf.push(Message::Text(String::from_str("j")));
        buf.push(Message::Text(self.room.clone()));
        buf.push(text_or_empty_message(&self.nick));
        buf.push(text_or_empty_message(&self.id));
        buf.push(text_or_empty_message(&self.level));
        buf.push(Message::Text(self.auth.to_string()));
        buf.push(text_or_empty_message(&self.icon));
        buf.push(text_or_empty_message(&self.nickcon));
        buf.push(text_or_null_message(&self.other));
        buf.push(Message::Text(hash));
        buf.push(Message::Text(session));
        buf.push(Message::Text(String::from_str("utf-8")));
        buf.push(text_or_empty_message(&time));
        buf.push(text_or_null_message(&self.password));
        buf.push(text_or_null_message(&self.cache_token));
        buf.push(text_or_null_message(&self.profile_image));
        assert(buf@ =~= join_fields(*self, session@, opt_chars(time), hash@));
        buf
    }

    /// The join request with the given session id at `secs` seconds since the
    /// epoch (see `join_spec`).
    pub fn build_from(&self, session: String, secs: u64) -> (r: uMessage)
        ensures
            r@ == join_spec(*self, session@, secs),
            self.token is Some ==> is_hash_field(r@[9]),
    {
        match &self.token {
            None => self.join_message(session, None, String::new()),
            Some(token) => {
                let mut time = String::new();
                push_decimal(&mut time, secs);
                assert(time@ =~= decimal(secs as nat));
                let hash = self.join_hash(token.as_str(), &time);
                let ghost h = hash@;
                let r = self.join_message(session, Some(time), hash);
                assert(r@[9] == MessageView::Text(h));
                r
            },
        }
    }

    /// The join request with the given session id, at the clock reading
    /// `clock` (`None`: earlier than the epoch, counted as the epoch) shifted
    /// by `time_delta` (see `join_spec` and `shifted_secs_spec`).
    pub fn build_at(&self, session: String, clock: Option<TimeSpan>, time_delta: TimeSpan) -> (r:
        uMessage)
        ensures
            r@ == join_spec(*self, session@, shifted_secs_spec(clock, time_delta)),
            self.token is Some ==> is_hash_field(r@[9]),
    {
        self.build_from(session, shifted_secs(clock, time_delta))
    }

    /// The join request, with a fresh random session id and, when there is a
    /// token, the clock shifted by `time_delta` (a clock that reads earlier
    /// than the epoch counts as the epoch; a sum past the largest second count
    /// stays there).
    pub fn build_with_time(&self, time_delta: TimeSpan) -> (r: uMessage)
        ensures
            exists|session: Seq<char>, clock: Option<TimeSpan>|
                is_session_id(session) && (clock matches Some(t) ==> t.nanos < 1_000_000_000)
                    && r@ == #[trigger] join_spec(
                    *self,
                    session,
                    shifted_secs_spec(clock, time_delta),
                ),
            self.token is Some ==> is_hash_field(r@[9]),
    {
        let session = random_alphanumeric(32);
        let clock = if self.token.is_some() {
            read_clock()
        } else {
            None
        };
        let r = self.build_at(session, clock, time_delta);
        assert(is_session_id(session@));
        r
    }

    /// The join request at the current time: `build_with_time` with a zero shift.
    pub fn build(&self) -> (r: uMessage)
        ensures
            exists|session: Seq<char>, clock: Option<TimeSpan>|
                is_session_id(session) && (clock matches Some(t) ==> t.nanos < 1_000_000_000)
                    && r@ == #[trigger] join_spec(
                    *self,
                    session,
                    shifted_secs_spec(clock, TimeSpan { secs: 0, nanos: 0 }),
                ),
            self.token is Some ==> is_hash_field(r@[9]),
    {
        self.build_with_time(TimeSpan::new(0, 0))
    }
}

/// Law: a join request depends on the session id only in its eleventh field,
/// which is that id; two requests of one configuration at the same second
/// agree everywhere else.
pub proof fn lemma_join_session_field(c: JoinConfig, s1: Seq<char>, s2: Seq<char>, secs: u64)
    ensures
        join_spec(c, s1, secs).len() == 16,
        join_spec(c, s1, secs)[10] == MessageView::Text(s1),
        forall|i: int|
            0 <= i < 16 && i != 10 ==> #[trigger] join_spec(c, s1, secs)[i] == join_spec(
                c,
                s2,
                secs,
            )[i],
{
}

/// Law: with no shift, the time of a join request is the whole seconds of the
/// clock reading (the epoch when the clock reads earlier).
pub proof fn lemma_zero_shift(clock: Option<TimeSpan>)
    requires
        clock matches Some(t) ==> t.nanos < 1_000_000_000,
    ensures
        shifted_secs_spec(clock, TimeSpan { secs: 0, nanos: 0 }) == match clock {
            Some(t) => t.secs,
            None => 0u64,
        },
{
}

/// Law: the fields of a join request, position by position: `j`, the room,
/// nick, id and level (empty when absent), the rank's name, icon and nick
/// style (empty when absent), other (the empty message when absent), the
/// hash, the session id, `utf-8`, the time (empty when absent), then
/// password, cached client token and profile image (the empty message when
/// absent).
pub proof fn lemma_join_field_positions(
    c: JoinConfig,
    session: Seq<char>,
    time: Option<Seq<char>>,
    hash: Seq<char>,
)
    ensures
        join_fields(c, session, time, hash).len() == 16,
        join_fields(c, session, time, hash)[0] == MessageView::Text("j"@),
        join_fields(c, session, time, hash)[1] == MessageView::Text(c.room@),
        join_fields(c, session, time, hash)[2] == MessageView::Text(chars_or_empty(opt_chars(c.nick))),
        join_fields(c, session, time, hash)[3] == MessageView::Text(chars_or_empty(opt_chars(c.id))),
        join_fields(c, session, time, hash)[4] == MessageView::Text(
            chars_or_empty(opt_chars(c.level)),
        ),
        join_fields(c, session, time, hash)[5] == MessageView::Text(auth_text(c.auth)),
        join_fields(c, session, time, hash)[6] == MessageView::Text(chars_or_empty(opt_chars(c.icon))),
        join_fields(c, session, time, hash)[7] == MessageView::Text(
            chars_or_empty(opt_chars(c.nickcon)),
        ),
        join_fields(c, session, time, hash)[8] == (match c.other {
            Some(v) => MessageView::Text(v@),
            None => MessageView::Null,
        }),
        join_fields(c, session, time, hash)[9] == MessageView::Text(hash),
        join_fields(c, session, time, hash)[10] == MessageView::Text(session),
        join_fields(c, session, time, hash)[11] == MessageView::Text("utf-8"@),
        join_fields(c, session, time, hash)[12] == MessageView::Text(chars_or_empty(time)),
        join_fields(c, session, time, hash)[13] == (match c.password {
            Some(v) => MessageView::Text(v@),
            None => MessageView::Null,
        }),
        join_fields(c, session, time, hash)[14] == (match c.cache_token {
            Some(v) => MessageView::Text(v@),
            None => MessageView::Null,
        }),
        join_fields(c, session, time, hash)[15] == (match c.profile_image {
            Some(v) => MessageView::Text(v@),
            None => MessageView::Null,
        }),
{
}

/// Law: every rank but the empty one has a name of its own, and the names of
/// different ranks differ.
pub proof fn lemma_auth_names(a: UChatAuthLevel, b: UChatAuthLevel)
    ensures
        auth_text(a).len() == 0 <==> a == UChatAuthLevel::NoLevel,
        a != b ==> auth_text(a) != auth_text(b),
{
    reveal_strlit("admin");
    reveal_strlit("subadmin");
    reveal_strlit("member");
    reveal_strlit("guest");
    assert("admin"@.len() != "subadmin"@.len());
    assert("admin"@.len() != "member"@.len());
    assert("admin"@[0] != "guest"@[0]);
    assert("subadmin"@.len() != "member"@.len());
    assert("subadmin"@.len() != "guest"@.len());
    assert("member"@.len() != "guest"@.len());
}

/// Law: a rank other than the empty one puts its name and the token in front
/// of the text the join hash is taken of; the rest is the text of the same
/// configuration without a rank.
pub proof fn lemma_implode_rank(c: JoinConfig, a: UChatAuthLevel, token: Seq<char>, time: Seq<char>)
    requires
        a != UChatAuthLevel::NoLevel,
    ensures
        auth_text(a).len() > 0,
        implode_spec(JoinConfig { auth: a, ..c }, token, time) == auth_text(a) + token
            + implode_spec(JoinConfig { auth: UChatAuthLevel::NoLevel, ..c }, token, time),
{
    lemma_auth_names(a, a);
    let c1 = JoinConfig { auth: a, ..c };
    let c0 = JoinConfig { auth: UChatAuthLevel::NoLevel, ..c };
    assert(implode_spec(c1, token, time) =~= auth_text(a) + token + implode_spec(c0, token, time));
}

/// Law: with every value present, the text the join hash is taken of is the
/// rank, icon, id, level, nick, nick style, other, room and time, in that
/// order, each followed by the token, and the token once more.
pub proof fn lemma_implode_order(c: JoinConfig, token: Seq<char>, time: Seq<char>)
    requires
        c.auth != UChatAuthLevel::NoLevel,
        c.icon is Some,
        c.id is Some,
        c.level is Some,
        c.nick is Some,
        c.nickcon is Some,
        c.other is Some,
    ensures
        implode_spec(c, token, time) == auth_text(c.auth) + token + c.icon->0@ + token + c.id->0@
            + token + c.level->0@ + token + c.nick->0@ + token + c.nickcon->0@ + token
            + c.other->0@ + token + c.room@ + token + time + token + token,
{
    assert(implode_spec(c, token, time) =~= auth_text(c.auth) + token + c.icon->0@ + token
        + c.id->0@ + token + c.level->0@ + token + c.nick->0@ + token + c.nickcon->0@ + token
        + c.other->0@ + token + c.room@ + token + time + token + token);
}

/// Law: absent values leave no trace: with no rank and no optional value, the
/// text the join hash is taken of is the room, the token, the time and the
/// token twice.
pub proof fn lemma_implode_bare(c: JoinConfig, token: Seq<char>, time: Seq<char>)
    requires
        c.auth == UChatAuthLevel::NoLevel,
        c.icon is None,
        c.id is None,
        c.level is None,
        c.nick is None,
        c.nickcon is None,
        c.other is None,
    ensures
        implode_spec(c, token, time) == c.room@ + token + time + token + token,
{
    assert(implode_spec(c, token, time) =~= c.room@ + token + time + token + token);
}

} // verus!
