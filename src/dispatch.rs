//! Dispatch of one request against the house: decode the payload, parse the
//! command, apply it, and form the response.

use vstd::prelude::*;
use vstd::string::StringSliceAdditionalSpecFns;
use vstd::utf8::{decode_utf8, encode_utf8_decode_utf8, encode_utf8_valid_utf8, valid_utf8};
use crate::device_info_provider::{DeviceKind, DeviceState, POWER_LIMIT, POWER_MIN};
use crate::protocol::{parse_command, parse_spec, Command, CommandView};
use crate::smart_house::{has_device, switched, HouseView, SmartHouse};

verus! {

/// What the server answers to one request.
#[derive(Clone, Copy, Debug, PartialEq, Eq, Structural)]
pub enum Response {
    /// The switch was done.
    Switched,
    /// The sampled power, in thousandths of a unit.
    Power(u32),
    /// The request failed; the protocol does not say why.
    Failure,
}

/// The ASCII decimal digits of `n`, without leading zeros.
pub open spec fn decimal(n: nat) -> Seq<u8>
    decreases n,
{
    if n < 10 {
        seq![(48 + n) as u8]
    } else {
        decimal(n / 10).push((48 + n % 10) as u8)
    }
}

/// A power in thousandths written as a decimal number with three places.
pub open spec fn power_text(p: u32) -> Seq<u8> {
    decimal((p / 1000) as nat) + seq![
        46u8,
        (48 + (p / 100) % 10) as u8,
        (48 + (p / 10) % 10) as u8,
        (48 + p % 10) as u8,
    ]
}

/// The bytes that carry a response: "OK", the power, or "ERR".
pub open spec fn response_bytes(r: Response) -> Seq<u8> {
    match r {
        Response::Switched => seq![79u8, 75u8],
        Response::Power(p) => power_text(p),
        Response::Failure => seq![69u8, 82u8, 82u8],
    }
}

/// The ASCII decimal digits of `n`.
pub fn decimal_digits(n: u32) -> (r: Vec<u8>)
    ensures
        r@ == decimal(n as nat),
{
    let mut cur = n;
    let mut digits: Vec<u8> = Vec::new();
    while cur >= 10
        invariant
            decimal(n as nat) == decimal(cur as nat) + digits@,
        decreases cur,
    {
        let d = (48 + cur % 10) as u8;
        let ghost before = digits@;
        digits.insert(0, d);
        assert(decimal(cur as nat) == decimal((cur / 10) as nat).push(d));
        assert(decimal((cur / 10) as nat).push(d) + before =~= decimal((cur / 10) as nat) + digits@);
        cur = cur / 10;
    }
    let ghost before = digits@;
    digits.insert(0, (48 + cur) as u8);
    assert(decimal(cur as nat) + before =~= digits@);
    digits
}

impl Response {
    /// The bytes that carry this response.
    pub fn to_bytes(&self) -> (r: Vec<u8>)
        ensures
            r@ == response_bytes(*self),
    {
        match self {
            Response::Switched => {
                let r: Vec<u8> = vec![79u8, 75u8];
                assert(r@ =~= seq![79u8, 75u8]);
                r
            },
            Response::Failure => {
                let r: Vec<u8> = vec![69u8, 82u8, 82u8];
                assert(r@ =~= seq![69u8, 82u8, 82u8]);
                r
            },
            Response::Power(p) => {
                let p = *p;
                let mut r = decimal_digits(p / 1000);
                r.push(46u8);
                r.push((48 + (p / 100) % 10) as u8);
                r.push((48 + (p / 10) % 10) as u8);
                r.push((48 + p % 10) as u8);
                assert(r@ =~= power_text(p));
                r
            },
        }
    }
}

/// The room and device that a command is about.
pub open spec fn target(c: CommandView) -> (Seq<char>, Seq<char>) {
    match c {
        CommandView::Switch(room, device, _) => (room, device),
        CommandView::Power(room, device) => (room, device),
    }
}

/// Whether the house can carry out `c`: the device exists, and a power
/// query is put to a socket.
pub open spec fn succeeds(h: HouseView, c: CommandView) -> bool {
    match c {
        CommandView::Switch(room, device, _) => has_device(h, room, device),
        CommandView::Power(room, device) => has_device(h, room, device) && h.rooms[room][device].kind
            == DeviceKind::Socket,
    }
}

/// The house after `c`: a switch that succeeds sets the device; nothing else
/// changes anything.
pub open spec fn effect(h: HouseView, c: CommandView) -> HouseView {
    match c {
        CommandView::Switch(room, device, on) => if has_device(h, room, device) {
            switched(h, room, device, on)
        } else {
            h
        },
        CommandView::Power(_, _) => h,
    }
}

/// Whether `r` is a right answer to `c` on house `h`.
pub open spec fn answers(h: HouseView, c: CommandView, r: Response) -> bool {
    if !succeeds(h, c) {
        r == Response::Failure
    } else {
        match c {
            CommandView::Switch(_, _, _) => r == Response::Switched,
            CommandView::Power(_, _) => r matches Response::Power(p) && POWER_MIN <= p < POWER_LIMIT,
        }
    }
}

/// Applies one command to the house.
pub fn execute_command(house: &mut SmartHouse, command: &Command) -> (r: Response)
    requires
        old(house).wf(),
    ensures
        final(house).wf(),
        final(house)@ == effect(old(house)@, command@),
        answers(old(house)@, command@, r),
{
    match command {
        Command::SwitchSocketCommand(room, device, on) => {
            match house.switch_socket(room.as_str(), device.as_str(), *on) {
                Ok(_) => Response::Switched,
                Err(_) => Response::Failure,
            }
        },
        Command::GetSocketConsumedPower(room, device) => {
            match house.get_socket_state(room.as_str(), device.as_str()) {
                Ok(p) => Response::Power(p),
                Err(_) => Response::Failure,
            }
        },
    }
}

/// Relies on `std::str::from_utf8`: it succeeds exactly on valid UTF-8, and
/// then yields a string made of those bytes.
#[verifier::external_body]
fn utf8_text(bytes: &[u8]) -> (r: Option<&str>)
    ensures
        match r {
            Some(s) => s.spec_bytes() == bytes@,
            None => !valid_utf8(bytes@),
        },
{
    std::str::from_utf8(bytes).ok()
}

/// The command that a request payload carries: UTF-8 text that parses.
pub open spec fn request_of(payload: Seq<u8>) -> Option<CommandView> {
    if valid_utf8(payload) {
        parse_spec(decode_utf8(payload))
    } else {
        None
    }
}

/// Handles one request payload: a payload that carries no command fails and
/// leaves the house as it was.
pub fn handle_request(house: &mut SmartHouse, payload: &[u8]) -> (r: Response)
    requires
        old(house).wf(),
    ensures
        final(house).wf(),
        match request_of(payload@) {
            Some(c) => final(house)@ == effect(old(house)@, c) && answers(old(house)@, c, r),
            None => final(house)@ == old(house)@ && r == Response::Failure,
        },
{
    let text = match utf8_text(payload) {
        Some(t) => t,
        None => {
            return Response::Failure;
        },
    };
    proof {
        encode_utf8_valid_utf8(text@);
        encode_utf8_decode_utf8(text@);
    }
    match parse_command(text) {
        Ok(command) => execute_command(house, &command),
        Err(_) => Response::Failure,
    }
}

/// A request about a room or device that the house lacks leaves the house
/// unchanged, and the failure marker is the only right answer.
pub proof fn lemma_missing_target_fails(h: HouseView, c: CommandView)
    requires
        !has_device(h, target(c).0, target(c).1),
    ensures
        effect(h, c) == h,
        forall|r: Response| #[trigger] answers(h, c, r) <==> r == Response::Failure,
{
}

/// What switching changes: one device's state, nothing else.
proof fn lemma_switched_at(h: HouseView, room: Seq<char>, device: Seq<char>, on: bool)
    requires
        has_device(h, room, device),
    ensures
        switched(h, room, device, on).rooms.dom() == h.rooms.dom(),
        forall|r: Seq<char>| #[trigger] h.rooms.contains_key(r) ==> switched(h, room, device, on).rooms[r].dom() == h.rooms[r].dom(),
        forall|r: Seq<char>, d: Seq<char>|
            #![trigger switched(h, room, device, on).rooms[r][d]]
            h.rooms.contains_key(r) && h.rooms[r].contains_key(d) ==> switched(h, room, device, on).rooms[r][d] == (if r
                == room && d == device {
                DeviceState { kind: h.rooms[r][d].kind, is_on: on }
            } else {
                h.rooms[r][d]
            }),
{
    let s = switched(h, room, device, on);
    assert(s.rooms.dom() =~= h.rooms.dom());
    assert forall|r: Seq<char>| #[trigger] h.rooms.contains_key(r) implies s.rooms[r].dom() == h.rooms[r].dom() by {
        if r == room {
            assert(s.rooms[r].dom() =~= h.rooms[r].dom());
        }
    }
}

/// Switching a device twice the same way leaves the house as switching it
/// once.
pub proof fn lemma_switch_idempotent(h: HouseView, room: Seq<char>, device: Seq<char>, on: bool)
    ensures
        effect(effect(h, CommandView::Switch(room, device, on)), CommandView::Switch(room, device, on))
            == effect(h, CommandView::Switch(room, device, on)),
{
    let c = CommandView::Switch(room, device, on);
    if has_device(h, room, device) {
        let once = effect(h, c);
        lemma_switched_at(h, room, device, on);
        assert(has_device(once, room, device));
        lemma_switched_at(once, room, device, on);
        let twice = effect(once, c);
        assert forall|r: Seq<char>| #[trigger] twice.rooms.contains_key(r) implies twice.rooms[r] =~= once.rooms[r] by {
            assert forall|d: Seq<char>| #[trigger] twice.rooms[r].contains_key(d) implies twice.rooms[r][d] == once.rooms[r][d] by {
                assert(twice.rooms[r][d] == once.rooms[r][d]);
            }
        }
        assert(twice.rooms =~= once.rooms);
    }
}

/// Two requests about different devices, applied one after the other under
/// the house's lock, leave the same house in either order, and each gets
/// the same kind of answer in either order: every interleaving of such
/// requests is equivalent to any serial one.
pub proof fn lemma_disjoint_commute(h: HouseView, c1: CommandView, c2: CommandView)
    requires
        target(c1) != target(c2),
    ensures
        effect(effect(h, c1), c2) == effect(effect(h, c2), c1),
        succeeds(effect(h, c1), c2) == succeeds(h, c2),
        succeeds(effect(h, c2), c1) == succeeds(h, c1),
{
    let (r1, d1) = target(c1);
    let (r2, d2) = target(c2);
    let h1 = effect(h, c1);
    let h2 = effect(h, c2);
    if c1 is Switch && has_device(h, r1, d1) {
        lemma_switched_at(h, r1, d1, c1->Switch_2);
    }
    if c2 is Switch && has_device(h, r2, d2) {
        lemma_switched_at(h, r2, d2, c2->Switch_2);
    }
    assert(has_device(h1, r2, d2) == has_device(h, r2, d2));
    assert(has_device(h2, r1, d1) == has_device(h, r1, d1));
    if has_device(h, r2, d2) {
        assert(h1.rooms[r2][d2] == h.rooms[r2][d2]);
    }
    if has_device(h, r1, d1) {
        assert(h2.rooms[r1][d1] == h.rooms[r1][d1]);
    }
    let a = effect(h1, c2);
    let b = effect(h2, c1);
    if c2 is Switch && has_device(h1, r2, d2) {
        lemma_switched_at(h1, r2, d2, c2->Switch_2);
    }
    if c1 is Switch && has_device(h2, r1, d1) {
        lemma_switched_at(h2, r1, d1, c1->Switch_2);
    }
    assert(a.rooms.dom() =~= b.rooms.dom());
    assert forall|r: Seq<char>| #[trigger] a.rooms.contains_key(r) implies a.rooms[r] =~= b.rooms[r] by {
        assert(a.rooms[r].dom() =~= b.rooms[r].dom());
        assert forall|d: Seq<char>| #[trigger] a.rooms[r].contains_key(d) implies a.rooms[r][d] == b.rooms[r][d] by {
            assert(a.rooms[r][d] == b.rooms[r][d]);
        }
    }
    assert(a.rooms =~= b.rooms);
}

} // verus!
