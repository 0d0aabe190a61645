//! The client's side of the protocol: the bytes of a request and the
//! reading of the server's reply.

use vstd::prelude::*;
use vstd::string::StringSliceAdditionalSpecFns;
use vstd::utf8::{encode_utf8, encode_utf8_decode_utf8, encode_utf8_valid_utf8};
use crate::codec::{encode_frame, frame_spec, lemma_frame_round_trip, unframe_spec};
use crate::errors::{HouseErrorKind, SmartHouseError};
use crate::dispatch::{answers, decimal, effect, power_text, request_of, response_bytes, Response};
use crate::protocol::{is_word, lemma_parse_request_text, request_text, well_formed, Command, CommandView};
use crate::smart_house::{has_device, switched, HouseView};

verus! {

/// The request of `command` with its length in front, or `None` when its
/// text is too long for the prefix.
pub fn framed_request(command: &Command) -> (r: Option<Vec<u8>>)
    ensures
        match r {
            Some(v) => v@ == frame_spec(encode_utf8(request_text(command@))),
            None => encode_utf8(request_text(command@)).len() > u32::MAX,
        },
{
    let text = command.encode();
    let bytes = text.as_str().as_bytes();
    if bytes.len() > 0xffff_ffff {
        return None;
    }
    Some(encode_frame(bytes))
}

pub open spec fn is_digit(b: u8) -> bool {
    48 <= b <= 57
}

/// The number that ASCII decimal digits stand for.
pub open spec fn value_of(s: Seq<u8>) -> nat
    decreases s.len(),
{
    if s.len() == 0 {
        0
    } else {
        value_of(s.drop_last()) * 10 + digit_value(s.last())
    }
}

pub open spec fn digit_value(b: u8) -> nat {
    if is_digit(b) {
        (b - 48) as nat
    } else {
        0
    }
}

proof fn lemma_value_grows(s: Seq<u8>, i: int, m: int)
    requires
        0 <= i <= m <= s.len(),
    ensures
        value_of(s.take(i)) <= value_of(s.take(m)),
    decreases m - i,
{
    if i < m {
        lemma_value_grows(s, i, m - 1);
        assert(s.take(m).drop_last() =~= s.take(m - 1));
    }
}

/// How many digits `s` starts with.
pub open spec fn lead_digits(s: Seq<u8>) -> nat
    decreases s.len(),
{
    if s.len() > 0 && is_digit(s[0]) {
        1 + lead_digits(s.drop_first())
    } else {
        0
    }
}

/// The value of the `i`-th digit of `s`, zero past its end.
pub open spec fn digit_at(s: Seq<u8>, i: int) -> nat {
    if 0 <= i < s.len() {
        digit_value(s[i])
    } else {
        0
    }
}

/// The thousandths that fraction digits stand for: digits past the third
/// are cut off, missing ones count as zero.
pub open spec fn milli_of(f: Seq<u8>) -> nat {
    100 * digit_at(f, 0) + 10 * digit_at(f, 1) + digit_at(f, 2)
}

pub open spec fn all_digits(s: Seq<u8>) -> bool {
    forall|i: int| 0 <= i < s.len() ==> is_digit(#[trigger] s[i])
}

/// What follows the leading digits and the character after them.
pub open spec fn fraction_of(body: Seq<u8>) -> Seq<u8> {
    let k = lead_digits(body) as int;
    if k < body.len() {
        body.skip(k + 1)
    } else {
        Seq::empty()
    }
}

/// Decimal text read in thousandths, rounded toward zero: one or more
/// digits, then optionally a point and one or more digits. `None` for any
/// other text, or for a value beyond `u32`.
pub open spec fn power_of(body: Seq<u8>) -> Option<u32> {
    let k = lead_digits(body) as int;
    let whole = body.take(k);
    let rest = body.skip(k);
    let frac = fraction_of(body);
    if k >= 1 && (rest.len() == 0 || (rest[0] == 46u8 && frac.len() >= 1 && all_digits(frac)))
        && value_of(whole) * 1000 + milli_of(frac) <= u32::MAX {
        Some((value_of(whole) * 1000 + milli_of(frac)) as u32)
    } else {
        None
    }
}

proof fn lemma_lead_digits(s: Seq<u8>)
    ensures
        lead_digits(s) <= s.len(),
        forall|j: int| 0 <= j < lead_digits(s) ==> is_digit(#[trigger] s[j]),
        lead_digits(s) < s.len() ==> !is_digit(s[lead_digits(s) as int]),
    decreases s.len(),
{
    if s.len() > 0 && is_digit(s[0]) {
        let t = s.drop_first();
        lemma_lead_digits(t);
        assert forall|j: int| 0 <= j < lead_digits(s) implies is_digit(#[trigger] s[j]) by {
            if j > 0 {
                assert(s[j] == t[j - 1]);
            }
        }
        if lead_digits(s) < s.len() {
            assert(s[lead_digits(s) as int] == t[lead_digits(t) as int]);
        }
    }
}

fn is_digit_byte(b: u8) -> (r: bool)
    ensures
        r == is_digit(b),
{
    48 <= b && b <= 57
}

/// Reads decimal text as thousandths.
pub fn parse_power(body: &[u8]) -> (r: Option<u32>)
    ensures
        r == power_of(body@),
{
    let n = body.len();
    let mut whole: u64 = 0;
    let mut i: usize = 0;
    assert(body@.take(0) =~= Seq::<u8>::empty());
    proof {
        lemma_lead_digits(body@);
    }
    loop
        invariant
            n == body@.len(),
            i <= n,
            whole == value_of(body@.take(i as int)),
            whole <= 4294967,
            forall|j: int| 0 <= j < i ==> is_digit(#[trigger] body@[j]),
            lead_digits(body@) <= n,
            forall|j: int| 0 <= j < lead_digits(body@) ==> is_digit(#[trigger] body@[j]),
            lead_digits(body@) < n ==> !is_digit(body@[lead_digits(body@) as int]),
        ensures
            i <= n,
            whole == value_of(body@.take(i as int)),
            whole <= 4294967,
            i == lead_digits(body@),
        decreases n - i,
    {
        if i == n || !is_digit_byte(body[i]) {
            proof {
                if lead_digits(body@) > i {
                    assert(is_digit(body@[i as int]));
                }
                if lead_digits(body@) < i {
                    assert(is_digit(body@[lead_digits(body@) as int]));
                }
            }
            break;
        }
        proof {
            lemma_value_step(body@, i as int);
        }
        whole = whole * 10 + (body[i] - 48) as u64;
        if whole > 4294967 {
            proof {
                if lead_digits(body@) < i + 1 {
                    assert(is_digit(body@[lead_digits(body@) as int]));
                }
                lemma_value_grows(body@, i as int + 1, lead_digits(body@) as int);
            }
            return None;
        }
        i = i + 1;
    }
    if i == 0 {
        return None;
    }
    if i == n {
        assert(body@.skip(i as int).len() == 0);
        assert(milli_of(Seq::<u8>::empty()) == 0);
        return Some((whole * 1000) as u32);
    }
    let ghost frac = fraction_of(body@);
    if body[i] != 46u8 || n - i < 2 {
        return None;
    }
    let mut j: usize = i + 1;
    while j < n
        invariant
            n == body@.len(),
            i + 1 <= j <= n,
            i == lead_digits(body@),
            body@[i as int] == 46u8,
            frac == fraction_of(body@),
            forall|m: int| 0 <= m < j - i - 1 ==> is_digit(#[trigger] frac[m]),
        decreases n - j,
    {
        assert(frac[j - i - 1] == body@[j as int]);
        if !is_digit_byte(body[j]) {
            assert(!is_digit(frac[j - i - 1]));
            return None;
        }
        j = j + 1;
    }
    let d0 = (body[i + 1] - 48) as u64;
    assert(frac[0] == body@[i + 1]);
    let d1 = if n - i > 2 {
        assert(frac[1] == body@[i + 2]);
        (body[i + 2] - 48) as u64
    } else {
        0
    };
    let d2 = if n - i > 3 {
        assert(frac[2] == body@[i + 3]);
        (body[i + 3] - 48) as u64
    } else {
        0
    };
    assert(milli_of(frac) == 100 * d0 + 10 * d1 + d2);
    let total = whole * 1000 + 100 * d0 + 10 * d1 + d2;
    if total > 0xffff_ffff {
        return None;
    }
    Some(total as u32)
}

/// The response that reply bytes carry, if any.
pub open spec fn reply_spec(body: Seq<u8>) -> Option<Response> {
    if body == seq![79u8, 75u8] {
        Some(Response::Switched)
    } else if body == seq![69u8, 82u8, 82u8] {
        Some(Response::Failure)
    } else {
        match power_of(body) {
            Some(p) => Some(Response::Power(p)),
            None => None,
        }
    }
}

proof fn lemma_value_step(s: Seq<u8>, i: int)
    requires
        0 <= i < s.len(),
    ensures
        value_of(s.take(i + 1)) == value_of(s.take(i)) * 10 + digit_value(s[i]),
{
    assert(s.take(i + 1).drop_last() =~= s.take(i));
}

/// Reads a reply of the server.
pub fn read_reply(body: &[u8]) -> (r: Option<Response>)
    ensures
        r == reply_spec(body@),
{
    let n = body.len();
    if n == 2 && body[0] == 79u8 && body[1] == 75u8 {
        assert(body@ =~= seq![79u8, 75u8]);
        return Some(Response::Switched);
    }
    if n == 3 && body[0] == 69u8 && body[1] == 82u8 && body[2] == 82u8 {
        assert(body@ =~= seq![69u8, 82u8, 82u8]);
        return Some(Response::Failure);
    }
    assert(body@ != seq![79u8, 75u8]);
    assert(body@ != seq![69u8, 82u8, 82u8]);
    match parse_power(body) {
        Some(p) => Some(Response::Power(p)),
        None => None,
    }
}

/// What a switch request's reply means: `Ok(true)` for the success marker,
/// `RequestFailed` for the failure marker, `ServerError` for anything else.
pub fn switch_outcome(body: &[u8]) -> (r: Result<bool, SmartHouseError>)
    ensures
        reply_spec(body@) == Some(Response::Switched) ==> r == Ok::<bool, SmartHouseError>(true),
        reply_spec(body@) == Some(Response::Failure) ==> (r matches Err(e) && e.kind == HouseErrorKind::RequestFailed),
        reply_spec(body@) != Some(Response::Switched) && reply_spec(body@) != Some(Response::Failure) ==> (
        r matches Err(e) && e.kind == HouseErrorKind::ServerError),
{
    match read_reply(body) {
        Some(Response::Switched) => Ok(true),
        Some(Response::Failure) => Err(SmartHouseError::of_kind(HouseErrorKind::RequestFailed)),
        _ => Err(SmartHouseError::of_kind(HouseErrorKind::ServerError)),
    }
}

/// What a power request's reply means: the power in thousandths, or
/// `ServerError` for a reply that is no number (the failure marker included).
pub fn power_outcome(body: &[u8]) -> (r: Result<u32, SmartHouseError>)
    ensures
        match reply_spec(body@) {
            Some(Response::Power(p)) => r == Ok::<u32, SmartHouseError>(p),
            _ => r matches Err(e) && e.kind == HouseErrorKind::ServerError,
        },
{
    match read_reply(body) {
        Some(Response::Power(p)) => Ok(p),
        _ => Err(SmartHouseError::of_kind(HouseErrorKind::ServerError)),
    }
}

/// A well-formed command sent as sentinel-delimited text is read back by
/// the server as the same command.
pub proof fn lemma_request_text_round_trip(c: CommandView)
    requires
        well_formed(c),
    ensures
        request_of(encode_utf8(request_text(c))) == Some(c),
{
    encode_utf8_valid_utf8(request_text(c));
    encode_utf8_decode_utf8(request_text(c));
    lemma_parse_request_text(c);
}

/// A well-formed command sent through the length-prefixed framing is
/// unframed to its text and read back by the server as the same command.
pub proof fn lemma_request_round_trip(c: CommandView)
    requires
        well_formed(c),
        encode_utf8(request_text(c)).len() <= u32::MAX,
    ensures
        unframe_spec(frame_spec(encode_utf8(request_text(c)))) == Some(encode_utf8(request_text(c))),
        match unframe_spec(frame_spec(encode_utf8(request_text(c)))) {
            Some(payload) => request_of(payload) == Some(c),
            None => false,
        },
{
    lemma_request_text_round_trip(c);
    lemma_frame_round_trip(encode_utf8(request_text(c)));
}

/// A switch request for a device that the house has is read as that
/// switch; afterwards the device is on or off as asked, nothing else in the
/// house has changed, and the success marker is the only right answer.
pub proof fn lemma_switch_request_applies(h: HouseView, room: Seq<char>, device: Seq<char>, on: bool)
    requires
        is_word(room),
        is_word(device),
        has_device(h, room, device),
    ensures
        request_of(encode_utf8(request_text(CommandView::Switch(room, device, on)))) == Some(
            CommandView::Switch(room, device, on),
        ),
        effect(h, CommandView::Switch(room, device, on)) == switched(h, room, device, on),
        switched(h, room, device, on).rooms[room][device].is_on == on,
        forall|r: Response| #[trigger] answers(h, CommandView::Switch(room, device, on), r) <==> r == Response::Switched,
{
    lemma_request_text_round_trip(CommandView::Switch(room, device, on));
}

proof fn lemma_decimal_value(n: nat)
    ensures
        value_of(decimal(n)) == n,
        decimal(n).len() >= 1,
        forall|i: int| 0 <= i < decimal(n).len() ==> is_digit(#[trigger] decimal(n)[i]),
    decreases n,
{
    if n >= 10 {
        lemma_decimal_value(n / 10);
        assert(decimal(n).drop_last() =~= decimal(n / 10));
        assert(decimal(n).last() == (48 + n % 10) as u8);
        assert(digit_value(decimal(n).last()) == n % 10);
        assert((n / 10) * 10 + n % 10 == n) by (nonlinear_arith);
        assert forall|i: int| 0 <= i < decimal(n).len() implies is_digit(#[trigger] decimal(n)[i]) by {
            if i < decimal(n).len() - 1 {
                assert(decimal(n)[i] == decimal(n / 10)[i]);
            }
        }
    } else {
        assert(decimal(n).drop_last() =~= Seq::<u8>::empty());
        assert(value_of(Seq::<u8>::empty()) == 0);
        assert(digit_value(decimal(n).last()) == n);
    }
}

/// Reading the bytes of a response gives the response back.
pub proof fn lemma_reply_round_trip(r: Response)
    ensures
        reply_spec(response_bytes(r)) == Some(r),
{
    if let Response::Power(p) = r {
        let body = power_text(p);
        let w = (p / 1000) as nat;
        lemma_decimal_value(w);
        let k = decimal(w).len() as int;
        lemma_lead_digits(body);
        assert forall|j: int| 0 <= j < k implies is_digit(#[trigger] body[j]) by {
            assert(body[j] == decimal(w)[j]);
        }
        assert(!is_digit(body[k]));
        if lead_digits(body) > k {
            assert(is_digit(body[k]));
        }
        if lead_digits(body) < k {
            assert(is_digit(body[lead_digits(body) as int]));
        }
        assert(lead_digits(body) == k);
        assert(body.take(k) =~= decimal(w));
        let a = (48 + (p / 100) % 10) as u8;
        let b = (48 + (p / 10) % 10) as u8;
        let c = (48 + p % 10) as u8;
        assert(body.skip(k) =~= seq![46u8, a, b, c]);
        let frac = fraction_of(body);
        assert(frac =~= seq![a, b, c]);
        assert(milli_of(frac) == 100 * ((p / 100) % 10) + 10 * ((p / 10) % 10) + p % 10);
        assert(100 * ((p / 100) % 10) + 10 * ((p / 10) % 10) + p % 10 == p % 1000) by (nonlinear_arith);
        assert((p / 1000) * 1000 + p % 1000 == p) by (nonlinear_arith);
        assert(body != seq![79u8, 75u8]);
        assert(body != seq![69u8, 82u8, 82u8]);
    }
}

} // verus!
