//! The configuration surface the service boots with, and its checks.
//!
//! The values arrive from the environment outside this crate; here they
//! are plain fields. The two validations enforce that a feature switched
//! on has every setting it needs, and name the missing ones.

use vstd::prelude::*;
use vstd::string::StringExecFns;

verus! {

/// Everything the service reads at boot.
#[derive(Debug)]
pub struct Config {
    pub database_url: String,
    pub server_port: u16,
    pub json_logs: bool,
    /// With authentication off, every route is public and no login
    /// endpoints exist.
    pub auth_enabled: bool,
    pub oidc_issuer_url: Option<String>,
    pub oidc_client_id: Option<String>,
    pub oidc_client_secret: Option<String>,
    pub oidc_redirect_url: Option<String>,
    pub notifications_enabled: bool,
    pub notification_poll_interval_seconds: u64,
    pub notification_dispatch_interval_seconds: u64,
    pub notification_max_attempts: u32,
    pub notification_batch_size: usize,
    pub telegram_bot_token: Option<String>,
    pub telegram_chat_id: Option<String>,
}

impl Clone for Config {
    fn clone(&self) -> (r: Self)
        ensures
            r == *self,
    {
        Config {
            database_url: self.database_url.clone(),
            server_port: self.server_port,
            json_logs: self.json_logs,
            auth_enabled: self.auth_enabled,
            oidc_issuer_url: clone_opt(&self.oidc_issuer_url),
            oidc_client_id: clone_opt(&self.oidc_client_id),
            oidc_client_secret: clone_opt(&self.oidc_client_secret),
            oidc_redirect_url: clone_opt(&self.oidc_redirect_url),
            notifications_enabled: self.notifications_enabled,
            notification_poll_interval_seconds: self.notification_poll_interval_seconds,
            notification_dispatch_interval_seconds: self.notification_dispatch_interval_seconds,
            notification_max_attempts: self.notification_max_attempts,
            notification_batch_size: self.notification_batch_size,
            telegram_bot_token: clone_opt(&self.telegram_bot_token),
            telegram_chat_id: clone_opt(&self.telegram_chat_id),
        }
    }
}

/// Clone an optional string, keeping the value.
fn clone_opt(s: &Option<String>) -> (r: Option<String>)
    ensures
        r == *s,
{
    match s {
        Some(v) => Some(v.clone()),
        None => None,
    }
}

/// Comma-join a list of names, unfolding at the back so a builder that
/// appends one name at a time matches it directly.
pub open spec fn joined_names(names: Seq<Seq<char>>) -> Seq<char>
    decreases names.len(),
{
    if names.len() == 0 {
        Seq::empty()
    } else if names.len() == 1 {
        names[0]
    } else {
        joined_names(names.drop_last()) + ", "@ + names.last()
    }
}

/// The environment variable names the OIDC validation finds missing,
/// in their fixed order.
pub open spec fn missing_oidc_names(c: Config) -> Seq<Seq<char>> {
    let base = Seq::<Seq<char>>::empty();
    let base = if c.oidc_issuer_url is None {
        base.push("OIDC_ISSUER_URL"@)
    } else {
        base
    };
    let base = if c.oidc_client_id is None {
        base.push("OIDC_CLIENT_ID"@)
    } else {
        base
    };
    let base = if c.oidc_client_secret is None {
        base.push("OIDC_CLIENT_SECRET"@)
    } else {
        base
    };
    if c.oidc_redirect_url is None {
        base.push("OIDC_REDIRECT_URL"@)
    } else {
        base
    }
}

/// The environment variable names the notification validation finds
/// missing, in their fixed order.
pub open spec fn missing_notification_names(c: Config) -> Seq<Seq<char>> {
    let base = Seq::<Seq<char>>::empty();
    let base = if c.telegram_bot_token is None {
        base.push("TELEGRAM_BOT_TOKEN"@)
    } else {
        base
    };
    if c.telegram_chat_id is None {
        base.push("TELEGRAM_CHAT_ID"@)
    } else {
        base
    }
}

/// Append `name` to a comma-joined list under construction.
fn push_name(list: &mut String, first: &mut bool, name: &str)
    ensures
        *old(first) ==> final(list)@ == old(list)@ + name@,
        !*old(first) ==> final(list)@ == old(list)@ + ", "@ + name@,
        *final(first) == false,
{
    if *first {
        *first = false;
    } else {
        list.append(", ");
    }
    list.append(name);
}

impl Config {
    /// With authentication enabled, every OIDC setting must be present;
    /// the error lists the missing variable names.
    pub fn validate_oidc(&self) -> (r: Result<(), String>)
        ensures
            r is Ok <==> (!self.auth_enabled || missing_oidc_names(*self).len() == 0),
            r matches Err(m) ==> m@
                == "AUTH_ENABLED=true but the following required environment variables are not set: "@
                + joined_names(missing_oidc_names(*self)),
    {
        if !self.auth_enabled {
            return Ok(());
        }
        let mut list = String::new();
        let mut first = true;
        let ghost d0: Seq<Seq<char>> = Seq::empty();
        if self.oidc_issuer_url.is_none() {
            proof {
                lemma_joined_push(d0, "OIDC_ISSUER_URL"@);
            }
            push_name(&mut list, &mut first, "OIDC_ISSUER_URL");
        }
        let ghost d1 = if self.oidc_issuer_url is None {
            d0.push("OIDC_ISSUER_URL"@)
        } else {
            d0
        };
        proof {
            assert(list@ =~= joined_names(d1));
        }
        if self.oidc_client_id.is_none() {
            proof {
                lemma_joined_push(d1, "OIDC_CLIENT_ID"@);
            }
            push_name(&mut list, &mut first, "OIDC_CLIENT_ID");
        }
        let ghost d2 = if self.oidc_client_id is None {
            d1.push("OIDC_CLIENT_ID"@)
        } else {
            d1
        };
        proof {
            assert(list@ =~= joined_names(d2));
        }
        if self.oidc_client_secret.is_none() {
            proof {
                lemma_joined_push(d2, "OIDC_CLIENT_SECRET"@);
            }
            push_name(&mut list, &mut first, "OIDC_CLIENT_SECRET");
        }
        let ghost d3 = if self.oidc_client_secret is None {
            d2.push("OIDC_CLIENT_SECRET"@)
        } else {
            d2
        };
        proof {
            assert(list@ =~= joined_names(d3));
        }
        if self.oidc_redirect_url.is_none() {
            proof {
                lemma_joined_push(d3, "OIDC_REDIRECT_URL"@);
            }
            push_name(&mut list, &mut first, "OIDC_REDIRECT_URL");
        }
        let ghost d4 = if self.oidc_redirect_url is None {
            d3.push("OIDC_REDIRECT_URL"@)
        } else {
            d3
        };
        proof {
            assert(list@ =~= joined_names(d4));
            assert(d4 =~= missing_oidc_names(*self));
            assert(first == (d4.len() == 0));
        }
        if first {
            Ok(())
        } else {
            let mut msg = String::from_str(
                "AUTH_ENABLED=true but the following required environment variables are not set: ",
            );
            msg.append(list.as_str());
            Err(msg)
        }
    }

    /// With notifications enabled, the channel credentials must be
    /// present; the error lists the missing variable names.
    pub fn validate_notifications(&self) -> (r: Result<(), String>)
        ensures
            r is Ok <==> (!self.notifications_enabled || missing_notification_names(
                *self,
            ).len() == 0),
            r matches Err(m) ==> m@
                == "NOTIFICATIONS_ENABLED=true but the following required environment variables are not set: "@
                + joined_names(missing_notification_names(*self)),
    {
        if !self.notifications_enabled {
            return Ok(());
        }
        let mut list = String::new();
        let mut first = true;
        let ghost d0: Seq<Seq<char>> = Seq::empty();
        if self.telegram_bot_token.is_none() {
            proof {
                lemma_joined_push(d0, "TELEGRAM_BOT_TOKEN"@);
            }
            push_name(&mut list, &mut first, "TELEGRAM_BOT_TOKEN");
        }
        let ghost d1 = if self.telegram_bot_token is None {
            d0.push("TELEGRAM_BOT_TOKEN"@)
        } else {
            d0
        };
        proof {
            assert(list@ =~= joined_names(d1));
        }
        if self.telegram_chat_id.is_none() {
            proof {
                lemma_joined_push(d1, "TELEGRAM_CHAT_ID"@);
            }
            push_name(&mut list, &mut first, "TELEGRAM_CHAT_ID");
        }
        let ghost d2 = if self.telegram_chat_id is None {
            d1.push("TELEGRAM_CHAT_ID"@)
        } else {
            d1
        };
        proof {
            assert(list@ =~= joined_names(d2));
            assert(d2 =~= missing_notification_names(*self));
            assert(first == (d2.len() == 0));
        }
        if first {
            Ok(())
        } else {
            let mut msg = String::from_str(
                "NOTIFICATIONS_ENABLED=true but the following required environment variables are not set: ",
            );
            msg.append(list.as_str());
            Err(msg)
        }
    }
}

/// Appending a name to a comma-joined list: the first name stands
/// alone, every later one behind a separator.
proof fn lemma_joined_push(names: Seq<Seq<char>>, n: Seq<char>)
    ensures
        names.len() == 0 ==> joined_names(names.push(n)) == n,
        names.len() > 0 ==> joined_names(names.push(n)) == joined_names(names) + ", "@ + n,
{
    assert(names.push(n).drop_last() =~= names);
    assert(names.push(n).last() == n);
    if names.len() == 0 {
        assert(names.push(n)[0] == n);
    }
}

} // verus!
