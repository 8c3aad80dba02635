use vstd::prelude::*;

verus! {

/// Where a memory context keeps its messages.
#[derive(Debug, Clone, Copy, PartialEq, Eq, Structural)]
pub enum StorageType {
    DB,
    Local,
}

/// The database engines a configuration can name.
#[derive(Debug, Clone, Copy, PartialEq, Eq, Structural)]
pub enum DatabaseType {
    MySQL,
    PostgreSQL,
    SQLite,
    Redis,
    LanceDB,
}

/// Who wrote a message.
#[derive(Debug, Clone, Copy, PartialEq, Eq, Structural)]
pub enum Role {
    User,
    LLM,
}

impl DatabaseType {
    /// The display name of the engine.
    pub open spec fn spec_name(self) -> Seq<char> {
        match self {
            DatabaseType::MySQL => seq!['m', 'y', 's', 'q', 'l'],
            DatabaseType::PostgreSQL => seq!['p', 'o', 's', 't', 'g', 'r', 'e', 's', 'q', 'l'],
            DatabaseType::SQLite => seq!['s', 'q', 'l', 'i', 't', 'e'],
            DatabaseType::Redis => seq!['r', 'e', 'd', 'i', 's'],
            DatabaseType::LanceDB => seq!['l', 'a', 'n', 'c', 'e', 'D', 'B'],
        }
    }

    /// The display name of the engine ("mysql", "sqlite", ...).
    pub fn name(&self) -> (r: String)
        ensures
            r@ == self.spec_name(),
    {
        match self {
            DatabaseType::MySQL => {
                proof {
                    reveal_strlit("mysql");
                }
                String::from_str("mysql")
            },
            DatabaseType::PostgreSQL => {
                proof {
                    reveal_strlit("postgresql");
                }
                String::from_str("postgresql")
            },
            DatabaseType::SQLite => {
                proof {
                    reveal_strlit("sqlite");
                }
                String::from_str("sqlite")
            },
            DatabaseType::Redis => {
                proof {
                    reveal_strlit("redis");
                }
                String::from_str("redis")
            },
            DatabaseType::LanceDB => {
                proof {
                    reveal_strlit("lanceDB");
                }
                String::from_str("lanceDB")
            },
        }
    }
}


impl Role {
    /// The display name of the role: "user" or "assistant".
    pub open spec fn spec_name(self) -> Seq<char> {
        match self {
            Role::User => seq!['u', 's', 'e', 'r'],
            Role::LLM => seq!['a', 's', 's', 'i', 's', 't', 'a', 'n', 't'],
        }
    }

    /// The display name of the role: "user" or "assistant".
    pub fn name(&self) -> (r: String)
        ensures
            r@ == self.spec_name(),
    {
        match self {
            Role::User => {
                proof {
                    reveal_strlit("user");
                }
                String::from_str("user")
            },
            Role::LLM => {
                proof {
                    reveal_strlit("assistant");
                }
                String::from_str("assistant")
            },
        }
    }
}

/// A point in time, as whole seconds since the Unix epoch and the
/// nanoseconds past that second.
#[derive(Debug, Clone, Copy, PartialEq, Eq, Structural)]
pub struct Timestamp {
    pub secs: i64,
    pub nanos: u32,
}

/// Reads the system clock as the time elapsed since the Unix epoch, with
/// `UNIX_EPOCH.elapsed()` (`SystemTime::elapsed`), as whole seconds and the
/// nanoseconds past them.
///
/// Trusted: the result depends on the clock, so only what std documents of
/// every outcome is claimed: `None` when the clock reads before the epoch
/// (the call's error), and `Duration::subsec_nanos` is below one billion.
/// The call does not panic.
#[verifier::external_body]
fn time_since_epoch() -> (t: Option<(u64, u32)>)
    ensures
        t matches Some(d) ==> d.1 < 1_000_000_000,
{
    std::time::UNIX_EPOCH.elapsed().ok().map(|d| (d.as_secs(), d.subsec_nanos()))
}

/// Why the clock could not give a timestamp.
#[derive(Debug, Clone, Copy, PartialEq, Eq, Structural)]
pub enum ClockError {
    /// The clock reads before 1970, or later than whole seconds in an `i64`
    /// can count.
    OutOfRange,
}

/// The timestamp that a clock reading (seconds and nanoseconds since the
/// epoch, `None` before it) stands for: an error when there is no reading or
/// its seconds do not fit an `i64`.
pub open spec fn timestamp_from_reading(reading: Option<(u64, u32)>) -> Result<Timestamp, ClockError> {
    match reading {
        Some(d) => if d.0 <= i64::MAX {
            Ok(Timestamp { secs: d.0 as i64, nanos: d.1 })
        } else {
            Err(ClockError::OutOfRange)
        },
        None => Err(ClockError::OutOfRange),
    }
}

/// The timestamp that a clock reading stands for (see
/// `timestamp_from_reading`).
pub fn timestamp_of(reading: Option<(u64, u32)>) -> (r: Result<Timestamp, ClockError>)
    ensures
        r == timestamp_from_reading(reading),
{
    match reading {
        Some((secs, nanos)) => {
            if secs <= 0x7fff_ffff_ffff_ffffu64 {
                Ok(Timestamp { secs: secs as i64, nanos })
            } else {
                Err(ClockError::OutOfRange)
            }
        },
        None => Err(ClockError::OutOfRange),
    }
}

/// The current time, or an error when the clock reads before the Unix epoch
/// or beyond `i64::MAX` seconds after it: what `timestamp_of` gives for the
/// clock's reading.
pub fn current_time() -> (t: Result<Timestamp, ClockError>)
    ensures
        exists|reading: Option<(u64, u32)>|
            (reading matches Some(d) ==> d.1 < 1_000_000_000) && t == timestamp_from_reading(reading),
        t matches Ok(ts) ==> ts.secs >= 0 && ts.nanos < 1_000_000_000,
{
    let reading = time_since_epoch();
    timestamp_of(reading)
}

/// One message of a conversation.
#[derive(Debug, Clone)]
pub struct Message {
    pub id: Option<u64>,
    pub session_id: String,
    pub role: Role,
    pub content: String,
    pub timestamp: Timestamp,
    pub tokens: Option<usize>,
}

/// The mathematical value of a message.
pub struct MessageView {
    pub id: Option<u64>,
    pub session_id: Seq<char>,
    pub role: Role,
    pub content: Seq<char>,
    pub timestamp: Timestamp,
    pub tokens: Option<usize>,
}

impl View for Message {
    type V = MessageView;

    open spec fn view(&self) -> MessageView {
        MessageView {
            id: self.id,
            session_id: self.session_id@,
            role: self.role,
            content: self.content@,
            timestamp: self.timestamp,
            tokens: self.tokens,
        }
    }
}

/// The views of a sequence of messages.
pub open spec fn messages_view(ms: Seq<Message>) -> Seq<MessageView> {
    ms.map_values(|m: Message| m@)
}

impl Message {
    /// A message stamped with the given time, with no id and no token count.
    pub fn with_timestamp(session_id: String, role: Role, content: String, timestamp: Timestamp) -> (m: Message)
        ensures
            m.id is None,
            m.session_id@ == session_id@,
            m.role == role,
            m.content@ == content@,
            m.timestamp == timestamp,
            m.tokens is None,
    {
        Message { id: None, session_id, role, content, timestamp, tokens: None }
    }

    /// A message stamped with the current time, with no id and no token
    /// count; an error when the clock cannot give a timestamp (see
    /// `current_time`).
    pub fn new(session_id: String, role: Role, content: String) -> (r: Result<Message, ClockError>)
        ensures
            r matches Ok(m) ==> {
                &&& m.id is None
                &&& m.session_id@ == session_id@
                &&& m.role == role
                &&& m.content@ == content@
                &&& m.tokens is None
                &&& m.timestamp.secs >= 0
                &&& m.timestamp.nanos < 1_000_000_000
            },
    {
        let now = current_time()?;
        Ok(Message::with_timestamp(session_id, role, content, now))
    }

    /// A copy of the message.
    pub fn duplicate(&self) -> (r: Message)
        ensures
            r@ == self@,
    {
        Message {
            id: self.id,
            session_id: self.session_id.clone(),
            role: self.role,
            content: self.content.clone(),
            timestamp: self.timestamp,
            tokens: self.tokens,
        }
    }
}

} // verus!
