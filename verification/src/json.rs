//! Rule records read from JSON text. The JSON itself is read by `serde_json`; what is verified
//! here is how a rule is made of the values that it hands back.

use vstd::prelude::*;
use crate::domain::models::{AnanicyRule, RuleView};

verus! {

/// `serde_json::Value`, a JSON value as `serde_json` holds it. Nothing is known of what is
/// inside one but what the functions below say.
#[verifier::external_type_specification]
#[verifier::external_body]
pub struct ExValue(serde_json::Value);

/// `serde_json::Error`, the reason for which `serde_json` refuses a text. It is never read.
#[verifier::external_type_specification]
#[verifier::external_body]
pub struct ExError(serde_json::Error);

/// The value that `serde_json::from_str` reads from `text`, if it accepts the text.
pub uninterp spec fn json_value(text: Seq<char>) -> Option<serde_json::Value>;

/// The member that `serde_json::Value::get` finds in `value` under `key`, if there is one.
pub uninterp spec fn json_member(value: serde_json::Value, key: Seq<char>) -> Option<
    serde_json::Value,
>;

/// Whether `serde_json::Value::is_null` holds of `value`.
pub uninterp spec fn json_null(value: serde_json::Value) -> bool;

/// The text that `serde_json::Value::as_str` finds in `value`, if it is a string.
pub uninterp spec fn json_text(value: serde_json::Value) -> Option<Seq<char>>;

/// The integer that `serde_json::Value::as_i64` finds in `value`, if it is one that fits.
pub uninterp spec fn json_integer(value: serde_json::Value) -> Option<i64>;

/// Reads `text` as one JSON value with `serde_json::from_str`. Believed, not proved: the
/// outcome depends on the characters of `text` alone, and is the one that [`json_value`] names.
#[verifier::external_body]
pub(crate) fn read_value(text: &str) -> (r: Result<serde_json::Value, serde_json::Error>)
    ensures
        match r {
            Ok(value) => json_value(text@) == Some(value),
            Err(_) => json_value(text@) is None,
        },
{
    serde_json::from_str::<serde_json::Value>(text)
}

/// Looks `key` up in `value` with `serde_json::Value::get`. Believed, not proved: the outcome
/// is the one that [`json_member`] names.
#[verifier::external_body]
pub(crate) fn member<'a>(value: &'a serde_json::Value, key: &str) -> (r: Option<
    &'a serde_json::Value,
>)
    ensures
        match r {
            Some(found) => json_member(*value, key@) == Some(*found),
            None => json_member(*value, key@) is None,
        },
{
    value.get(key)
}

/// Asks `serde_json::Value::is_null` whether `value` is the JSON null. Believed, not proved:
/// the answer is the one that [`json_null`] names.
#[verifier::external_body]
pub(crate) fn is_null(value: &serde_json::Value) -> (r: bool)
    ensures
        r == json_null(*value),
{
    value.is_null()
}

/// Asks `serde_json::Value::as_str` for the text of `value`. Believed, not proved: the answer
/// is the one that [`json_text`] names.
#[verifier::external_body]
pub(crate) fn as_text(value: &serde_json::Value) -> (r: Option<String>)
    ensures
        match r {
            Some(text) => json_text(*value) == Some(text@),
            None => json_text(*value) is None,
        },
{
    value.as_str().map(String::from)
}

/// Asks `serde_json::Value::as_i64` for the integer of `value`. Believed, not proved: the
/// answer is the one that [`json_integer`] names.
#[verifier::external_body]
pub(crate) fn as_integer(value: &serde_json::Value) -> (r: Option<i64>)
    ensures
        r == json_integer(*value),
{
    value.as_i64()
}

/// What a member holds that a rule reads as a text: nothing where the member is absent or
/// null, the text where it is a string. `None` where it is anything else.
pub open spec fn text_field(value: serde_json::Value, key: Seq<char>) -> Option<Option<Seq<char>>> {
    match json_member(value, key) {
        None => Some(None),
        Some(found) => if json_null(found) {
            Some(None)
        } else {
            match json_text(found) {
                Some(text) => Some(Some(text)),
                None => None,
            }
        },
    }
}

/// What a member holds that a rule reads as an integer: nothing where the member is absent
/// or null, the number where it is an integer of 32 bits. `None` where it is anything else.
pub open spec fn int_field(value: serde_json::Value, key: Seq<char>) -> Option<Option<i32>> {
    match json_member(value, key) {
        None => Some(None),
        Some(found) => if json_null(found) {
            Some(None)
        } else {
            match json_integer(found) {
                Some(n) => if i32::MIN <= n <= i32::MAX {
                    Some(Some(n as i32))
                } else {
                    None
                },
                None => None,
            }
        },
    }
}

/// The rule that a JSON value describes: each of the nine members, where present and not
/// null, must have the type of its field; other members are ignored.
pub open spec fn rule_of_value(value: serde_json::Value) -> Option<RuleView> {
    let name = text_field(value, "name"@);
    let rule_type = text_field(value, "type"@);
    let nice = int_field(value, "nice"@);
    let latency_nice = int_field(value, "latency_nice"@);
    let sched = text_field(value, "sched"@);
    let rtprio = int_field(value, "rtprio"@);
    let ioclass = text_field(value, "ioclass"@);
    let oom_score_adj = int_field(value, "oom_score_adj"@);
    let cgroup = text_field(value, "cgroup"@);
    if name is Some && rule_type is Some && nice is Some && latency_nice is Some && sched is Some
        && rtprio is Some && ioclass is Some && oom_score_adj is Some && cgroup is Some {
        Some(
            RuleView {
                name: name->0,
                rule_type: rule_type->0,
                nice: nice->0,
                latency_nice: latency_nice->0,
                sched: sched->0,
                rtprio: rtprio->0,
                ioclass: ioclass->0,
                oom_score_adj: oom_score_adj->0,
                cgroup: cgroup->0,
            },
        )
    } else {
        None
    }
}

/// The rule that a line of a rule file describes: the line must open a JSON object and be
/// accepted as JSON, and the object must describe a rule.
///
/// A key that occurs more than once in the object is read by its last value: `serde_json`
/// keeps one member for each key of an object, the one that comes last in the text. So
/// `{"name":"a","name":"b"}` describes the rule named `b`.
pub open spec fn decode_rule(line: Seq<char>) -> Option<RuleView> {
    if line.len() > 0 && line[0] == '{' {
        match json_value(line) {
            Some(value) => rule_of_value(value),
            None => None,
        }
    } else {
        None
    }
}

/// Reads the member `key` of `value` as an optional text.
pub fn read_text_field(value: &serde_json::Value, key: &str) -> (r: Option<Option<String>>)
    ensures
        match r {
            Some(Some(text)) => text_field(*value, key@) == Some(Some(text@)),
            Some(None) => text_field(*value, key@) == Some(None::<Seq<char>>),
            None => text_field(*value, key@) is None,
        },
{
    match member(value, key) {
        None => Some(None),
        Some(found) => {
            if is_null(found) {
                Some(None)
            } else {
                match as_text(found) {
                    Some(text) => Some(Some(text)),
                    None => None,
                }
            }
        },
    }
}

/// Reads the member `key` of `value` as an optional integer of 32 bits.
pub fn read_int_field(value: &serde_json::Value, key: &str) -> (r: Option<Option<i32>>)
    ensures
        r == int_field(*value, key@),
{
    match member(value, key) {
        None => Some(None),
        Some(found) => {
            if is_null(found) {
                Some(None)
            } else {
                match as_integer(found) {
                    Some(n) => {
                        if -2147483648 <= n && n <= 2147483647 {
                            Some(Some(n as i32))
                        } else {
                            None
                        }
                    },
                    None => None,
                }
            }
        },
    }
}

/// Makes a rule of a JSON value, if the value describes one.
pub fn rule_from_value(value: &serde_json::Value) -> (r: Option<AnanicyRule>)
    ensures
        match r {
            Some(rule) => rule_of_value(*value) == Some(rule@),
            None => rule_of_value(*value) is None,
        },
{
    let name = match read_text_field(value, "name") {
        Some(x) => x,
        None => { return None; },
    };
    let rule_type = match read_text_field(value, "type") {
        Some(x) => x,
        None => { return None; },
    };
    let nice = match read_int_field(value, "nice") {
        Some(x) => x,
        None => { return None; },
    };
    let latency_nice = match read_int_field(value, "latency_nice") {
        Some(x) => x,
        None => { return None; },
    };
    let sched = match read_text_field(value, "sched") {
        Some(x) => x,
        None => { return None; },
    };
    let rtprio = match read_int_field(value, "rtprio") {
        Some(x) => x,
        None => { return None; },
    };
    let ioclass = match read_text_field(value, "ioclass") {
        Some(x) => x,
        None => { return None; },
    };
    let oom_score_adj = match read_int_field(value, "oom_score_adj") {
        Some(x) => x,
        None => { return None; },
    };
    let cgroup = match read_text_field(value, "cgroup") {
        Some(x) => x,
        None => { return None; },
    };
    Some(
        AnanicyRule {
            name,
            rule_type,
            nice,
            latency_nice,
            sched,
            rtprio,
            ioclass,
            oom_score_adj,
            cgroup,
        },
    )
}

/// Reads one line of a rule file as a rule, if it describes one.
pub fn decode_line(line: &str) -> (r: Option<AnanicyRule>)
    ensures
        match r {
            Some(rule) => decode_rule(line@) == Some(rule@),
            None => decode_rule(line@) is None,
        },
{
    if line.unicode_len() == 0 || line.get_char(0) != '{' {
        return None;
    }
    match read_value(line) {
        Ok(value) => rule_from_value(&value),
        Err(_) => None,
    }
}

} // verus!
