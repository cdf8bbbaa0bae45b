//! The chat channel's message protocol.
//!
//! Outbound, a pending notification becomes one message text plus an
//! inline "mark done" action whose callback data names the chore.
//! Inbound, callback data is parsed back into an action; stale or
//! malformed data yields a reply for the user instead of an error. The
//! transport itself (the bot connection) lives outside this crate.

use vstd::prelude::*;
use vstd::string::StrSliceExecFns;
use vstd::string::StringExecFns;

use crate::models::PendingNotification;

verus! {

/// What a piece of inbound callback data asks for.
#[derive(Debug, Clone, Copy, PartialEq, Eq, Structural)]
pub enum CallbackAction {
    /// The query carried no data at all.
    NoAction,
    /// The data did not carry the mark-done prefix.
    UnsupportedAction,
    /// The data named a chore, but not by a well-formed identifier.
    InvalidChoreId,
    /// Record a completion for this chore.
    MarkDone(u128),
}

/// Which strings the identifier parser accepts, and what value they
/// name. The crate that defines the format accepts several spellings,
/// so the function only gets a name: it depends on the characters alone.
pub uninterp spec fn uuid_parse_of(s: Seq<char>) -> Option<u128>;

/// Relies on `uuid::Uuid::parse_str`: whether a string parses, and to
/// what value, is a function of its characters.
#[verifier::external_body]
fn parse_uuid(s: &str) -> (r: Option<u128>)
    ensures
        r == uuid_parse_of(s@),
{
    match uuid::Uuid::parse_str(s) {
        Ok(u) => Some(u.as_u128()),
        Err(_) => None,
    }
}

/// The canonical hyphenated text of an identifier. A fixed rendering,
/// named rather than restated.
pub uninterp spec fn uuid_text(id: u128) -> Seq<char>;

/// Relies on `uuid::Uuid::from_u128` and its `Display`: the canonical
/// hyphenated form of the value.
#[verifier::external_body]
fn uuid_to_string(id: u128) -> (r: String)
    ensures
        r@ == uuid_text(id),
{
    uuid::Uuid::from_u128(id).to_string()
}

/// The callback-data prefix that marks a chore done.
pub open spec fn done_prefix() -> Seq<char> {
    "done:"@
}

/// The action inbound callback data asks for: absent data is no action,
/// data without the prefix is unsupported, a malformed identifier is
/// reported, and otherwise the named chore is to be completed.
pub open spec fn spec_callback_action(data: Option<Seq<char>>) -> CallbackAction {
    match data {
        None => CallbackAction::NoAction,
        Some(s) => if s.len() < 5 || s.take(5) != done_prefix() {
            CallbackAction::UnsupportedAction
        } else {
            match uuid_parse_of(s.skip(5)) {
                Some(id) => CallbackAction::MarkDone(id),
                None => CallbackAction::InvalidChoreId,
            }
        },
    }
}

/// Parse inbound callback data into the action it asks for.
pub fn parse_done_callback(data: &Option<String>) -> (a: CallbackAction)
    ensures
        a == spec_callback_action(match *data {
            Some(ref s) => Some(s@),
            None => None,
        }),
{
    let s = match data {
        Some(s) => s,
        None => {
            return CallbackAction::NoAction;
        },
    };
    let s = s.as_str();
    let n = s.unicode_len();
    if n < 5 {
        return CallbackAction::UnsupportedAction;
    }
    let matches_prefix = s.get_char(0) == 'd' && s.get_char(1) == 'o' && s.get_char(2) == 'n'
        && s.get_char(3) == 'e' && s.get_char(4) == ':';
    proof {
        broadcast use vstd::string::group_string_axioms;

        reveal_strlit("done:");
        assert(done_prefix().len() == 5);
        assert(done_prefix()[0] == 'd' && done_prefix()[1] == 'o' && done_prefix()[2] == 'n'
            && done_prefix()[3] == 'e' && done_prefix()[4] == ':');
        let t = s@.take(5);
        assert(t[0] == s@[0] && t[1] == s@[1] && t[2] == s@[2] && t[3] == s@[3] && t[4] == s@[4]);
        if matches_prefix {
            assert(t =~= done_prefix());
        } else {
            if t == done_prefix() {
                assert(s@[0] == 'd' && s@[1] == 'o' && s@[2] == 'n' && s@[3] == 'e' && s@[4]
                    == ':');
            }
            assert(t != done_prefix());
        }
    }
    if !matches_prefix {
        return CallbackAction::UnsupportedAction;
    }
    let rest = s.substring_char(5, n);
    proof {
        assert(rest@ =~= s@.skip(5));
    }
    match parse_uuid(rest) {
        Some(id) => CallbackAction::MarkDone(id),
        None => CallbackAction::InvalidChoreId,
    }
}

/// The callback data attached to a message's "mark done" action.
pub fn done_callback_data(chore_id: u128) -> (r: String)
    ensures
        r@ == done_prefix() + uuid_text(chore_id),
{
    let mut s = String::from_str("done:");
    let id = uuid_to_string(chore_id);
    s.append(id.as_str());
    proof {
        reveal_strlit("done:");
        assert(s@ =~= done_prefix() + uuid_text(chore_id));
    }
    s
}

/// The text of an outbound message: the event's title and body on two
/// lines.
pub fn message_text(notification: &PendingNotification) -> (r: String)
    ensures
        r@ == notification.title@ + "\n"@ + notification.body@,
{
    let mut s = notification.title.clone();
    s.append("\n");
    s.append(notification.body.as_str());
    s
}

/// A decimal digit.
pub open spec fn is_digit(c: char) -> bool {
    48 <= c as int <= 57
}

/// The value of a decimal digit.
pub open spec fn digit_val(c: char) -> int {
    c as int - 48
}

/// Every character is a decimal digit.
pub open spec fn all_digits(s: Seq<char>) -> bool {
    forall|i: int| 0 <= i < s.len() ==> is_digit(#[trigger] s[i])
}

/// The number a digit string names.
pub open spec fn digits_value(s: Seq<char>) -> int
    decreases s.len(),
{
    if s.len() == 0 {
        0
    } else {
        digits_value(s.drop_last()) * 10 + digit_val(s.last())
    }
}

/// The signed 64-bit value a chat identifier string names: an optional
/// sign, then at least one digit, and the value must fit.
pub open spec fn spec_parse_chat_id(s: Seq<char>) -> Option<int> {
    let negative = s.len() > 0 && s[0] == '-';
    let signed = s.len() > 0 && (s[0] == '-' || s[0] == '+');
    let digits = if signed {
        s.skip(1)
    } else {
        s
    };
    if digits.len() == 0 || !all_digits(digits) {
        None
    } else {
        let v = if negative {
            -digits_value(digits)
        } else {
            digits_value(digits)
        };
        if i64::MIN <= v <= i64::MAX {
            Some(v)
        } else {
            None
        }
    }
}

/// A digit string names a non-negative number.
proof fn lemma_digits_nonneg(s: Seq<char>)
    requires
        all_digits(s),
    ensures
        digits_value(s) >= 0,
    decreases s.len(),
{
    if s.len() > 0 {
        assert(all_digits(s.drop_last()));
        lemma_digits_nonneg(s.drop_last());
        assert(digits_value(s.drop_last()) * 10 >= 0) by (nonlinear_arith)
            requires
                digits_value(s.drop_last()) >= 0,
        {}
    }
}

/// Extending a digit string never shrinks its value.
proof fn lemma_digits_prefix_monotone(s: Seq<char>, k: int)
    requires
        all_digits(s),
        0 <= k <= s.len(),
    ensures
        digits_value(s.take(k)) <= digits_value(s),
    decreases s.len() - k,
{
    if k < s.len() {
        let t = s.take(k + 1);
        assert(t.drop_last() =~= s.take(k));
        assert(all_digits(t.drop_last()));
        lemma_digits_nonneg(t.drop_last());
        assert(digits_value(t) == digits_value(s.take(k)) * 10 + digit_val(t.last()));
        assert(digits_value(s.take(k)) * 10 >= digits_value(s.take(k))) by (nonlinear_arith)
            requires
                digits_value(s.take(k)) >= 0,
        {}
        lemma_digits_prefix_monotone(s, k + 1);
    } else {
        assert(s.take(k) =~= s);
    }
}

/// Parse a chat identifier: an optionally signed decimal `i64`, as the
/// channel configuration carries it. Anything else is rejected with the
/// configuration error naming the value.
pub fn parse_chat_id(s: &str) -> (r: Result<i64, String>)
    ensures
        r matches Ok(v) ==> spec_parse_chat_id(s@) == Some(v as int),
        r is Err <==> spec_parse_chat_id(s@) is None,
        r matches Err(m) ==> m@ == "Invalid TELEGRAM_CHAT_ID '"@ + s@
            + "': expected numeric chat id"@,
{
    let n = s.unicode_len();
    let mut negative = false;
    let mut start: usize = 0;
    if n > 0 {
        let c0 = s.get_char(0);
        if c0 == '-' {
            negative = true;
            start = 1;
        } else if c0 == '+' {
            start = 1;
        }
    }
    let ghost digits = s@.skip(start as int);
    proof {
        assert(s@.skip(0) =~= s@);
        assert(digits == (if s@.len() > 0 && (s@[0] == '-' || s@[0] == '+') {
            s@.skip(1)
        } else {
            s@
        }));
        assert(negative == (s@.len() > 0 && s@[0] == '-'));
    }
    let limit: u128 = if negative {
        9223372036854775808u128
    } else {
        9223372036854775807u128
    };
    if start == n {
        proof {
            assert(digits.len() == 0);
        }
        return Err(chat_id_error(s));
    }
    let mut acc: u128 = 0;
    let mut i: usize = start;
    while i < n
        invariant
            start <= i <= n,
            n == s@.len(),
            start == 0 || start == 1,
            digits == s@.skip(start as int),
            digits == (if s@.len() > 0 && (s@[0] == '-' || s@[0] == '+') {
                s@.skip(1)
            } else {
                s@
            }),
            negative == (s@.len() > 0 && s@[0] == '-'),
            limit == (if negative {
                9223372036854775808u128
            } else {
                9223372036854775807u128
            }),
            forall|k: int| 0 <= k < i - start ==> is_digit(#[trigger] digits[k]),
            acc as int == digits_value(digits.take(i - start)),
            acc <= limit,
        decreases n - i,
    {
        let c = s.get_char(i);
        let cv = c as u32;
        proof {
            assert(digits[i - start] == s@[i as int]);
        }
        if !(48 <= cv && cv <= 57) {
            proof {
                assert(!is_digit(digits[i - start]));
                assert(!all_digits(digits));
            }
            return Err(chat_id_error(s));
        }
        let d: u128 = (cv - 48) as u128;
        let next: u128 = acc * 10 + d;
        proof {
            assert(digits.take(i - start + 1).drop_last() =~= digits.take(i - start));
            assert(digits.take(i - start + 1).last() == digits[i - start]);
            assert(next as int == digits_value(digits.take(i - start + 1)));
        }
        if next > limit {
            proof {
                if all_digits(digits) {
                    lemma_digits_prefix_monotone(digits, i - start + 1);
                    lemma_digits_nonneg(digits);
                }
            }
            return Err(chat_id_error(s));
        }
        acc = next;
        i += 1;
    }
    proof {
        assert(digits.take(n - start) =~= digits);
        assert(all_digits(digits));
    }
    if negative {
        if acc == 9223372036854775808u128 {
            Ok(i64::MIN)
        } else {
            Ok(-(acc as i64))
        }
    } else {
        Ok(acc as i64)
    }
}

/// The configuration error for a malformed chat identifier.
fn chat_id_error(s: &str) -> (r: String)
    ensures
        r@ == "Invalid TELEGRAM_CHAT_ID '"@ + s@ + "': expected numeric chat id"@,
{
    let mut m = String::from_str("Invalid TELEGRAM_CHAT_ID '");
    m.append(s);
    m.append("': expected numeric chat id");
    proof {
        assert(m@ =~= "Invalid TELEGRAM_CHAT_ID '"@ + s@ + "': expected numeric chat id"@);
    }
    m
}

/// The user-facing reply for an inbound action that never reaches the
/// chore store; a mark-done action replies after the attempt instead.
pub fn callback_reply(action: &CallbackAction) -> (r: Option<String>)
    ensures
        match *action {
            CallbackAction::NoAction => (r matches Some(m) && m@ == "No action attached"@),
            CallbackAction::UnsupportedAction => (r matches Some(m) && m@
                == "Unsupported action"@),
            CallbackAction::InvalidChoreId => (r matches Some(m) && m@ == "Invalid chore id"@),
            CallbackAction::MarkDone(_) => r is None,
        },
{
    match action {
        CallbackAction::NoAction => Some(String::from_str("No action attached")),
        CallbackAction::UnsupportedAction => Some(String::from_str("Unsupported action")),
        CallbackAction::InvalidChoreId => Some(String::from_str("Invalid chore id")),
        CallbackAction::MarkDone(_) => None,
    }
}

/// The user-facing reply once a mark-done action was attempted: the
/// attempt succeeds only when the chore still exists and the completion
/// was recorded.
pub fn completion_reply(completed: bool) -> (r: String)
    ensures
        completed ==> r@ == "Marked done"@,
        !completed ==> r@ == "Failed to mark done"@,
{
    if completed {
        String::from_str("Marked done")
    } else {
        String::from_str("Failed to mark done")
    }
}

} // verus!
