//! Notification transports accept only the redacted, allowlisted outbox payload.
use vstd::prelude::*;

use crate::text;
use crate::wire;
use crate::wire::AddressView;

verus! {

/// The most bytes of a notification.
pub const MAX_PAYLOAD: usize = 131_072;

/// The most bytes that are read of a reply.
pub const MAX_REPLY: usize = 8192;

/// The most bytes of a secret.
pub const MAX_SECRET: usize = 16_384;

/// Checks that a notification is not too long.
pub fn check_payload(payload: &str) -> (r: Result<(), &'static str>)
    ensures
        match r {
            Ok(()) => text::utf8_len(payload@) <= MAX_PAYLOAD,
            Err(e) => text::utf8_len(payload@) > MAX_PAYLOAD && e@
                == "Notification exceeds payload bound"@,
        },
{
    if text::byte_len(payload) > MAX_PAYLOAD {
        return Err("Notification exceeds payload bound");
    }
    Ok(())
}

/// Where notifications are sent, and how the sender presents itself.
pub struct Endpoint {
    pub url: String,
    pub auth: Option<String>,
}

/// Whether a host is the machine itself, by its address.
pub open spec fn loopback(host: Option<Seq<char>>) -> bool {
    host == Some("127.0.0.1"@) || host == Some("[::1]"@)
}

/// Whether notifications may be sent to an address: over TLS only, but for the machine itself in a
/// local trial, and without anything in the address that is not part of it.
pub open spec fn acceptable(a: AddressView, local_test: bool) -> bool {
    &&& a.scheme == "https"@ || local_test && a.scheme == "http"@ && loopback(a.host)
    &&& a.username.len() == 0
    &&& !a.password
    &&& !a.fragment
}

/// What is said of an address and a token that cannot be used.
pub open spec fn endpoint_error(
    url: Seq<char>,
    token: Option<Seq<char>>,
    local_test: bool,
) -> Option<Seq<char>> {
    match wire::address_of(url) {
        None => Some("Invalid webhook URL"@),
        Some(a) => if !acceptable(a, local_test) {
            Some("Webhook requires HTTPS without userinfo or fragment"@)
        } else {
            match token {
                Some(t) => if wire::header_text(wire::bearer(t)) {
                    None
                } else {
                    Some("Invalid webhook token"@)
                },
                None => None,
            }
        },
    }
}

fn is_loopback(host: &Option<String>) -> (r: bool)
    ensures
        r == loopback(text::optional_view(*host)),
{
    match host {
        Some(h) => text::same(h.as_str(), "127.0.0.1") || text::same(h.as_str(), "[::1]"),
        None => false,
    }
}

/// Checks where notifications are to be sent.
pub fn endpoint(
    url: &str,
    token: Option<&str>,
    local_test: bool,
) -> (r: Result<Endpoint, &'static str>)
    ensures
        ({
            let t = match token {
                Some(x) => Some(x@),
                None => None,
            };
            match r {
                Ok(e) => {
                    &&& endpoint_error(url@, t, local_test) is None
                    &&& e.url@ == url@
                    &&& text::optional_view(e.auth) == (match t {
                        Some(x) => Some(wire::bearer(x)),
                        None => None,
                    })
                },
                Err(e) => endpoint_error(url@, t, local_test) == Some(e@),
            }
        }),
{
    let a = match wire::read_address(url) {
        Some(a) => a,
        None => {
            return Err("Invalid webhook URL");
        },
    };
    let secure = text::same(a.scheme.as_str(), "https") || (local_test && text::same(
        a.scheme.as_str(),
        "http",
    ) && is_loopback(&a.host));
    if !secure || !a.username.as_str().is_empty() || a.password || a.fragment {
        return Err("Webhook requires HTTPS without userinfo or fragment");
    }
    let auth = match token {
        Some(t) => match wire::authorization(t) {
            Some(h) => Some(h),
            None => {
                return Err("Invalid webhook token");
            },
        },
        None => None,
    };
    Ok(Endpoint { url: url.to_owned(), auth })
}

/// Nothing is ever sent in the clear, but to the machine itself in a local trial.
pub proof fn endpoints_are_secure(url: Seq<char>, token: Option<Seq<char>>, local_test: bool)
    requires
        endpoint_error(url, token, local_test) is None,
    ensures
        wire::address_of(url) matches Some(a) && (a.scheme == "https"@ || local_test && loopback(
            a.host,
        )) && a.username.len() == 0 && !a.password && !a.fragment,
{
}

/// Counts the bytes of a reply as they come: they must not be too many.
pub fn count_reply(so_far: usize, more: usize) -> (r: Result<usize, &'static str>)
    requires
        so_far <= MAX_REPLY,
    ensures
        match r {
            Ok(n) => n == so_far + more && n <= MAX_REPLY,
            Err(e) => so_far + more > MAX_REPLY && e@ == "Webhook response exceeds limit"@,
        },
{
    if more > MAX_REPLY - so_far {
        return Err("Webhook response exceeds limit");
    }
    Ok(so_far + more)
}

/// Checks the length that a reply announces, where it does.
pub fn check_announced(length: Option<u64>) -> (r: Result<(), &'static str>)
    ensures
        match r {
            Ok(()) => length matches Some(n) ==> n <= MAX_REPLY,
            Err(e) => length matches Some(n) && n > MAX_REPLY && e@
                == "Webhook response exceeds limit"@,
        },
{
    match length {
        Some(n) => if n > 8192 {
            Err("Webhook response exceeds limit")
        } else {
            Ok(())
        },
        None => Ok(()),
    }
}

/// What a reply means: the notification was taken, or was not.
pub fn outcome(status: u16) -> (r: Result<(), &'static str>)
    ensures
        match r {
            Ok(()) => 200 <= status < 300,
            Err(e) => !(200 <= status < 300) && e@ == "Webhook rejected notification"@,
        },
{
    if 200 <= status && status < 300 {
        Ok(())
    } else {
        Err("Webhook rejected notification")
    }
}

/// Whether a text can be a secret.
pub open spec fn secret_allowed(value: Seq<char>) -> bool {
    text::utf8_len(value) <= MAX_SECRET && text::trimmed(value).len() > 0
}

/// A secret as it is used, without the white space around it.
pub fn secret(value: &str, from_file: bool) -> (r: Result<String, &'static str>)
    ensures
        match r {
            Ok(s) => secret_allowed(value@) && s@ == text::trimmed(value@),
            Err(e) => !secret_allowed(value@) && e@ == (if from_file {
                "Invalid notification secret file"@
            } else {
                "Invalid notification secret"@
            }),
        },
{
    let s = text::trim(value);
    if text::byte_len(value) > MAX_SECRET || s.as_str().is_empty() {
        if from_file {
            return Err("Invalid notification secret file");
        }
        return Err("Invalid notification secret");
    }
    Ok(s)
}

}
