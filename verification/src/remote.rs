use vstd::prelude::*;

use base64::Engine;

verus! {

/// One element of the JSON array returned by a remote directory listing.
/// Every field is optional on the wire.
pub struct RemoteEntry {
    pub name: Option<String>,
    pub kind: Option<String>,
    pub mtime: Option<String>,
    pub size: Option<u64>,
}

/// The mathematical content of a `RemoteEntry`.
pub struct RemoteEntryV {
    pub name: Option<Seq<char>>,
    pub kind: Option<Seq<char>>,
    pub mtime: Option<Seq<char>>,
    pub size: Option<u64>,
}

impl View for RemoteEntry {
    type V = RemoteEntryV;

    open spec fn view(&self) -> RemoteEntryV {
        RemoteEntryV {
            name: match self.name {
                Some(s) => Some(s@),
                None => None,
            },
            kind: match self.kind {
                Some(s) => Some(s@),
                None => None,
            },
            mtime: match self.mtime {
                Some(s) => Some(s@),
                None => None,
            },
            size: self.size,
        }
    }
}

/// An error reported by the remote transport: the HTTP status, when one was
/// received, and a human-readable message.
pub struct TransportError {
    pub status: Option<u16>,
    pub message: String,
}

/// The wall-clock timestamp, in seconds since the epoch, denoted by an
/// RFC 2822 date string, or `None` when the string is not a valid RFC 2822
/// date. The result depends on the characters alone.
pub uninterp spec fn rfc2822_secs_of(s: Seq<char>) -> Option<i64>;

/// Relies on chrono's `DateTime::parse_from_rfc2822`, reading the parsed
/// date as epoch seconds through `DateTime::timestamp`: the outcome is a
/// function of the input characters alone.
#[verifier::external_body]
fn rfc2822_to_secs(s: &str) -> (r: Option<i64>)
    ensures
        r == rfc2822_secs_of(s@),
{
    match chrono::DateTime::parse_from_rfc2822(s) {
        Ok(dt) => Some(dt.timestamp()),
        Err(_) => None,
    }
}

/// What `parse_rfc2822` returns for a given entry.
pub open spec fn mtime_secs_spec(e: RemoteEntryV) -> Option<i64> {
    match e.mtime {
        Some(s) => rfc2822_secs_of(s),
        None => None,
    }
}

/// The modification time recorded for a created inode: the parsed `mtime`,
/// or zero when the field is absent or unparsable.
pub open spec fn mtime_or_zero(e: RemoteEntryV) -> i64 {
    match mtime_secs_spec(e) {
        Some(t) => t,
        None => 0,
    }
}

impl RemoteEntry {
    /// Interpret the entry's `mtime` field as an RFC 2822 date.
    pub fn parse_rfc2822(&self) -> (r: Option<i64>)
        ensures
            r == mtime_secs_spec(self@),
    {
        match &self.mtime {
            Some(s) => rfc2822_to_secs(s.as_str()),
            None => None,
        }
    }

    /// The parsed `mtime`, defaulted to zero when absent or unparsable.
    pub fn mtime_secs_or_zero(&self) -> (r: i64)
        ensures
            r == mtime_or_zero(self@),
    {
        match self.parse_rfc2822() {
            Some(t) => t,
            None => 0,
        }
    }
}

/// The standard base64 encoding of a string's UTF-8 bytes. The result
/// depends on the characters alone.
pub uninterp spec fn base64_of(s: Seq<char>) -> Seq<char>;

/// Relies on base64's `Engine::encode` with the standard alphabet and
/// padding: the encoding of the string's UTF-8 bytes, a function of the
/// input characters alone. The length bound keeps the encoder away from
/// its internal buffer-size overflow.
#[verifier::external_body]
fn b64_encode_str(s: &str) -> (r: String)
    requires
        s@.len() < 0x1000_0000,
    ensures
        r@ == base64_of(s@),
{
    base64::engine::general_purpose::STANDARD.encode(s)
}

/// The `Authorization` header value configured for the remote: present iff
/// both credentials are configured.
pub open spec fn auth_header_spec(user: Option<Seq<char>>, pass: Option<Seq<char>>) -> Option<
    Seq<char>,
> {
    match (user, pass) {
        (Some(u), Some(p)) => Some(
            seq!['B', 'a', 's', 'i', 'c', ' '] + base64_of(u + seq![':'] + p),
        ),
        _ => None,
    }
}

/// Build the static `Basic` authorization header from the configured
/// credentials, when both are present.
pub fn auth_header(user: &Option<String>, pass: &Option<String>) -> (r: Option<String>)
    requires
        (match (user, pass) {
            (Some(u), Some(p)) => u@.len() + p@.len() + 1 < 0x1000_0000,
            _ => true,
        }),
    ensures
        (match r {
            Some(h) => auth_header_spec(view_opt(user), view_opt(pass)) == Some(h@),
            None => auth_header_spec(view_opt(user), view_opt(pass)) is None,
        }),
{
    match (user, pass) {
        (Some(u), Some(p)) => {
            proof {
                reveal_strlit(":");
                reveal_strlit("Basic ");
            }
            let mut creds = u.clone();
            creds.append(":");
            creds.append(p.as_str());
            proof {
                assert(creds@ =~= u@ + seq![':'] + p@);
            }
            let encoded = b64_encode_str(creds.as_str());
            let mut header = String::from_str("Basic ");
            header.append(encoded.as_str());
            proof {
                assert(header@ =~= seq!['B', 'a', 's', 'i', 'c', ' '] + base64_of(
                    u@ + seq![':'] + p@,
                ));
            }
            Some(header)
        },
        _ => None,
    }
}

/// The view of an optional string.
pub open spec fn view_opt(s: &Option<String>) -> Option<Seq<char>> {
    match s {
        Some(x) => Some(x@),
        None => None,
    }
}

} // verus!
