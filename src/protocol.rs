//! The request protocol: commands, their sentinel-delimited text form, and
//! the parser from that text back to a command.

use vstd::prelude::*;
use crate::errors::{HouseErrorKind, SmartHouseError};
use crate::text::{
    blank, chars_of, is_blank, lemma_split_by_join, lemma_split_by_whole, line_break, lines_of,
    same_chars, split_by, split_lines, split_words, string_of, views_of, words_of,
};

verus! {

pub const START_MESSAGING_COMMAND: &'static str = "S_M_C";

pub const END_MESSAGING_COMMAND: &'static str = "E_M_C";

pub const SWITCH_SOCKET_COMMAND: &'static str = "S_S_C";

pub const GET_SOCKET_CONSUMED_POWER: &'static str = "G_S_C_P";

pub const ARGUMENTS: &'static str = "ARGS";

pub const OK_RESPONSE: &'static str = "OK";

pub const ERR_RESPONSE: &'static str = "ERR";

/// A request that the protocol carries.
#[derive(Debug)]
pub enum Command {
    /// Switch a device of a room on (`true`) or off.
    SwitchSocketCommand(String, String, bool),
    /// Sample the power that a device of a room draws.
    GetSocketConsumedPower(String, String),
}

/// A command with its texts as character sequences.
pub enum CommandView {
    Switch(Seq<char>, Seq<char>, bool),
    Power(Seq<char>, Seq<char>),
}

impl View for Command {
    type V = CommandView;

    open spec fn view(&self) -> CommandView {
        match self {
            Command::SwitchSocketCommand(room, device, on) => CommandView::Switch(room@, device@, *on),
            Command::GetSocketConsumedPower(room, device) => CommandView::Power(room@, device@),
        }
    }
}

impl Command {
    /// The sentinel-delimited text of the command.
    pub fn encode(&self) -> (r: String)
        ensures
            r@ == request_text(self@),
    {
        let mut r = START_MESSAGING_COMMAND.to_owned();
        r.append("\n");
        match self {
            Command::SwitchSocketCommand(room, device, on) => {
                r.append(SWITCH_SOCKET_COMMAND);
                r.append("\n");
                r.append(ARGUMENTS);
                r.append("\n");
                r.append(room.as_str());
                r.append(" ");
                r.append(device.as_str());
                r.append(" ");
                if *on {
                    r.append("true");
                } else {
                    r.append("false");
                }
            },
            Command::GetSocketConsumedPower(room, device) => {
                r.append(GET_SOCKET_CONSUMED_POWER);
                r.append("\n");
                r.append(ARGUMENTS);
                r.append("\n");
                r.append(room.as_str());
                r.append(" ");
                r.append(device.as_str());
            },
        }
        r.append("\n");
        r.append(END_MESSAGING_COMMAND);
        r
    }
}

/// The lines of `ls` before the first end sentinel.
pub open spec fn before_end(ls: Seq<Seq<char>>) -> Seq<Seq<char>>
    decreases ls.len(),
{
    if ls.len() == 0 || ls[0] == END_MESSAGING_COMMAND@ {
        Seq::empty()
    } else {
        seq![ls[0]] + before_end(ls.drop_first())
    }
}

/// The words of each line, in order.
pub open spec fn words_in(ls: Seq<Seq<char>>) -> Seq<Seq<char>> {
    ls.map_values(|l: Seq<char>| words_of(l)).flatten()
}

/// The argument list of a request's lines: the words of the lines after
/// the keyword and the arguments marker, up to the end sentinel.
pub open spec fn arguments_of(ls: Seq<Seq<char>>) -> Seq<Seq<char>> {
    if ls.len() > 3 {
        words_in(before_end(ls.skip(3)))
    } else {
        Seq::empty()
    }
}

/// How the protocol reads a boolean: "true" and "t" are true, any other
/// word is false.
pub open spec fn flag_of(w: Seq<char>) -> bool {
    w == "true"@ || w == "t"@
}

/// The command that a request text carries, if it carries one.
pub open spec fn parse_spec(text: Seq<char>) -> Option<CommandView> {
    let ls = lines_of(text);
    let args = arguments_of(ls);
    if ls.len() < 2 || ls[0] != START_MESSAGING_COMMAND@ {
        None
    } else if ls[1] == SWITCH_SOCKET_COMMAND@ && args.len() == 3 {
        Some(CommandView::Switch(args[0], args[1], flag_of(args[2])))
    } else if ls[1] == GET_SOCKET_CONSUMED_POWER@ && args.len() == 2 {
        Some(CommandView::Power(args[0], args[1]))
    } else {
        None
    }
}

proof fn lemma_before_end_prefix(ls: Seq<Seq<char>>, n: int)
    requires
        0 <= n <= ls.len(),
        forall|k: int| 0 <= k < n ==> ls[k] != END_MESSAGING_COMMAND@,
        n == ls.len() || ls[n] == END_MESSAGING_COMMAND@,
    ensures
        before_end(ls) == ls.take(n),
    decreases n,
{
    if n == 0 {
        assert(ls.take(0) =~= Seq::<Seq<char>>::empty());
    } else {
        let rest = ls.drop_first();
        assert forall|k: int| 0 <= k < n - 1 implies rest[k] != END_MESSAGING_COMMAND@ by {
            assert(rest[k] == ls[k + 1]);
        }
        if n - 1 < rest.len() {
            assert(rest[n - 1] == ls[n]);
        }
        lemma_before_end_prefix(rest, n - 1);
        assert(ls[0] != END_MESSAGING_COMMAND@);
        assert(seq![ls[0]] + rest.take(n - 1) =~= ls.take(n));
    }
}

/// The argument words of a request's lines.
fn collect_arguments(lines: &Vec<Vec<char>>) -> (r: Vec<Vec<char>>)
    ensures
        views_of(r@) == arguments_of(views_of(lines@)),
{
    let ghost ls = views_of(lines@);
    let mut args: Vec<Vec<char>> = Vec::new();
    if lines.len() <= 3 {
        assert(views_of(args@) =~= Seq::<Seq<char>>::empty());
        return args;
    }
    let end = chars_of(END_MESSAGING_COMMAND);
    let mut i: usize = 3;
    assert(ls.subrange(3, 3) =~= Seq::<Seq<char>>::empty());
    assert(views_of(args@) =~= words_in(ls.subrange(3, 3)));
    while i < lines.len()
        invariant
            ls == views_of(lines@),
            3 <= i <= lines@.len(),
            end@ == END_MESSAGING_COMMAND@,
            forall|k: int| 3 <= k < i ==> ls[k] != END_MESSAGING_COMMAND@,
            views_of(args@) == words_in(ls.subrange(3, i as int)),
        ensures
            3 <= i <= lines@.len(),
            forall|k: int| 3 <= k < i ==> ls[k] != END_MESSAGING_COMMAND@,
            views_of(args@) == words_in(ls.subrange(3, i as int)),
            i == lines@.len() || ls[i as int] == END_MESSAGING_COMMAND@,
        decreases lines@.len() - i,
    {
        assert(ls[i as int] == lines@[i as int]@);
        if same_chars(&lines[i], &end) {
            break;
        }
        let mut words = split_words(&lines[i]);
        proof {
            let prefix = ls.subrange(3, i as int);
            assert(ls.subrange(3, i + 1) =~= prefix.push(ls[i as int]));
            let f = |l: Seq<char>| words_of(l);
            assert(prefix.push(ls[i as int]).map_values(f) =~= prefix.map_values(f).push(words_of(ls[i as int])));
            prefix.map_values(f).lemma_flatten_push(words_of(ls[i as int]));
            assert(views_of(args@ + words@) =~= views_of(args@) + views_of(words@));
        }
        args.append(&mut words);
        i = i + 1;
    }
    proof {
        let tail = ls.skip(3);
        assert forall|k: int| 0 <= k < i - 3 implies tail[k] != END_MESSAGING_COMMAND@ by {
            assert(tail[k] == ls[k + 3]);
        }
        if i < lines.len() {
            assert(tail[i - 3] == ls[i as int]);
        }
        lemma_before_end_prefix(tail, i - 3);
        assert(tail.take(i - 3) =~= ls.subrange(3, i as int));
    }
    args
}

/// The text of a boolean argument.
pub open spec fn flag_text(on: bool) -> Seq<char> {
    if on {
        "true"@
    } else {
        "false"@
    }
}

/// The sentinel-delimited text of a command: start sentinel, keyword,
/// arguments marker, the arguments on one line, end sentinel.
pub open spec fn request_text(c: CommandView) -> Seq<char> {
    match c {
        CommandView::Switch(room, device, on) => START_MESSAGING_COMMAND@ + "\n"@
            + SWITCH_SOCKET_COMMAND@ + "\n"@ + ARGUMENTS@ + "\n"@ + room + " "@ + device + " "@
            + flag_text(on) + "\n"@ + END_MESSAGING_COMMAND@,
        CommandView::Power(room, device) => START_MESSAGING_COMMAND@ + "\n"@
            + GET_SOCKET_CONSUMED_POWER@ + "\n"@ + ARGUMENTS@ + "\n"@ + room + " "@ + device
            + "\n"@ + END_MESSAGING_COMMAND@,
    }
}

/// A text that the protocol can carry as one argument: not empty, with no
/// blank and no line break in it.
pub open spec fn is_word(s: Seq<char>) -> bool {
    s.len() > 0 && forall|i: int| 0 <= i < s.len() ==> !is_blank(#[trigger] s[i]) && s[i] != '\n'
}

/// A command whose room and device names are words.
pub open spec fn well_formed(c: CommandView) -> bool {
    match c {
        CommandView::Switch(room, device, _) => is_word(room) && is_word(device),
        CommandView::Power(room, device) => is_word(room) && is_word(device),
    }
}

proof fn lemma_split_push(a: Seq<char>, c: char, w: Seq<char>, sep: spec_fn(char) -> bool)
    requires
        sep(c),
        forall|i: int| 0 <= i < w.len() ==> !sep(#[trigger] w[i]),
    ensures
        split_by(a + seq![c] + w, sep) == split_by(a, sep).push(w),
{
    lemma_split_by_join(a, c, w, sep);
    lemma_split_by_whole(w, sep);
    assert(split_by(a, sep) + seq![w] =~= split_by(a, sep).push(w));
}

proof fn lemma_words_single(w: Seq<char>)
    requires
        is_word(w),
    ensures
        words_of(w) == seq![w],
{
    lemma_split_by_whole(w, blank());
    assert(seq![w] =~= Seq::<Seq<char>>::empty().push(w));
    Seq::<Seq<char>>::empty().lemma_filter_push(w, |x: Seq<char>| x.len() > 0);
    reveal(Seq::filter);
    assert(Seq::<Seq<char>>::empty().filter(|x: Seq<char>| x.len() > 0) =~= Seq::<Seq<char>>::empty());
}

proof fn lemma_words_push(a: Seq<char>, w: Seq<char>)
    requires
        is_word(w),
    ensures
        words_of(a + " "@ + w) == words_of(a).push(w),
{
    reveal_strlit(" ");
    assert(" "@ =~= seq![' ']);
    lemma_split_push(a, ' ', w, blank());
    split_by(a, blank()).lemma_filter_push(w, |x: Seq<char>| x.len() > 0);
}

proof fn lemma_lines_push(a: Seq<char>, l: Seq<char>)
    requires
        forall|i: int| 0 <= i < l.len() ==> #[trigger] l[i] != '\n',
    ensures
        lines_of(a + "\n"@ + l) == lines_of(a).push(l),
{
    reveal_strlit("\n");
    assert("\n"@ =~= seq!['\n']);
    lemma_split_push(a, '\n', l, line_break());
}

proof fn lemma_lines_single(l: Seq<char>)
    requires
        forall|i: int| 0 <= i < l.len() ==> #[trigger] l[i] != '\n',
    ensures
        lines_of(l) == seq![l],
{
    lemma_split_by_whole(l, line_break());
}

proof fn lemma_request_lines(kw: Seq<char>, line: Seq<char>)
    requires
        forall|i: int| 0 <= i < kw.len() ==> #[trigger] kw[i] != '\n',
        forall|i: int| 0 <= i < line.len() ==> #[trigger] line[i] != '\n',
    ensures
        lines_of(START_MESSAGING_COMMAND@ + "\n"@ + kw + "\n"@ + ARGUMENTS@ + "\n"@ + line + "\n"@
            + END_MESSAGING_COMMAND@) == seq![START_MESSAGING_COMMAND@, kw, ARGUMENTS@, line, END_MESSAGING_COMMAND@],
{
    reveal_strlit("S_M_C");
    reveal_strlit("ARGS");
    reveal_strlit("E_M_C");
    let s1 = START_MESSAGING_COMMAND@;
    let s2 = s1 + "\n"@ + kw;
    let s3 = s2 + "\n"@ + ARGUMENTS@;
    let s4 = s3 + "\n"@ + line;
    lemma_lines_single(s1);
    lemma_lines_push(s1, kw);
    lemma_lines_push(s2, ARGUMENTS@);
    lemma_lines_push(s3, line);
    lemma_lines_push(s4, END_MESSAGING_COMMAND@);
    assert(lines_of(s4 + "\n"@ + END_MESSAGING_COMMAND@) =~= seq![s1, kw, ARGUMENTS@, line, END_MESSAGING_COMMAND@]);
}

proof fn lemma_request_arguments(ls: Seq<Seq<char>>, line: Seq<char>)
    requires
        ls.len() == 5,
        ls[3] == line,
        ls[4] == END_MESSAGING_COMMAND@,
        line != END_MESSAGING_COMMAND@,
    ensures
        arguments_of(ls) == words_of(line),
{
    let tail = ls.skip(3);
    assert(tail =~= seq![line, END_MESSAGING_COMMAND@]);
    assert(tail.drop_first() =~= seq![END_MESSAGING_COMMAND@]);
    assert(before_end(tail.drop_first()) =~= Seq::<Seq<char>>::empty());
    assert(before_end(tail) =~= seq![line]);
    let f = |l: Seq<char>| words_of(l);
    assert(seq![line].map_values(f) =~= seq![words_of(line)]);
    seq![words_of(line)].lemma_flatten_singleton();
}

/// A line that holds a blank is no end sentinel.
proof fn lemma_not_end(line: Seq<char>, i: int)
    requires
        0 <= i < line.len(),
        line[i] == ' ',
    ensures
        line != END_MESSAGING_COMMAND@,
{
    reveal_strlit("E_M_C");
}

proof fn lemma_no_line_break(room: Seq<char>, device: Seq<char>, rest: Seq<char>)
    requires
        is_word(room),
        is_word(device),
        forall|i: int| 0 <= i < rest.len() ==> #[trigger] rest[i] != '\n',
    ensures
        forall|i: int| 0 <= i < (room + " "@ + device + rest).len() ==> #[trigger] (room + " "@ + device + rest)[i] != '\n',
{
    reveal_strlit(" ");
    let line = room + " "@ + device + rest;
    assert forall|i: int| 0 <= i < line.len() implies #[trigger] line[i] != '\n' by {
        if i < room.len() {
        } else if i == room.len() {
        } else if i < room.len() + 1 + device.len() {
            assert(line[i] == device[i - room.len() - 1]);
        } else {
            assert(line[i] == rest[i - room.len() - 1 - device.len()]);
        }
    }
}

#[verifier::spinoff_prover]
#[verifier::rlimit(40)]
proof fn lemma_parse_switch_text(room: Seq<char>, device: Seq<char>, on: bool)
    requires
        is_word(room),
        is_word(device),
    ensures
        parse_spec(request_text(CommandView::Switch(room, device, on))) == Some(CommandView::Switch(room, device, on)),
{
    reveal_strlit("S_M_C");
    reveal_strlit("S_S_C");
    reveal_strlit(" ");
    reveal_strlit("true");
    reveal_strlit("false");
    reveal_strlit("t");
    let c = CommandView::Switch(room, device, on);
    let f = flag_text(on);
    assert(is_word(f));
    lemma_words_single(room);
    lemma_words_push(room, device);
    lemma_words_push(room + " "@ + device, f);
    let line = room + " "@ + device + " "@ + f;
    assert(line[room.len() as int] == ' ');
    lemma_not_end(line, room.len() as int);
    assert(line =~= room + " "@ + device + (" "@ + f));
    lemma_no_line_break(room, device, " "@ + f);
    lemma_request_lines(SWITCH_SOCKET_COMMAND@, line);
    assert(request_text(c) =~= START_MESSAGING_COMMAND@ + "\n"@ + SWITCH_SOCKET_COMMAND@ + "\n"@
        + ARGUMENTS@ + "\n"@ + line + "\n"@ + END_MESSAGING_COMMAND@);
    let ls = lines_of(request_text(c));
    lemma_request_arguments(ls, line);
    assert(words_of(line) =~= seq![room, device, f]);
    assert(flag_of(f) == on);
}

#[verifier::spinoff_prover]
#[verifier::rlimit(40)]
proof fn lemma_parse_power_text(room: Seq<char>, device: Seq<char>)
    requires
        is_word(room),
        is_word(device),
    ensures
        parse_spec(request_text(CommandView::Power(room, device))) == Some(CommandView::Power(room, device)),
{
    reveal_strlit("S_M_C");
    reveal_strlit("S_S_C");
    reveal_strlit("G_S_C_P");
    reveal_strlit(" ");
    let c = CommandView::Power(room, device);
    lemma_words_single(room);
    lemma_words_push(room, device);
    let line = room + " "@ + device;
    assert(line[room.len() as int] == ' ');
    lemma_not_end(line, room.len() as int);
    assert(line =~= room + " "@ + device + Seq::<char>::empty());
    lemma_no_line_break(room, device, Seq::<char>::empty());
    lemma_request_lines(GET_SOCKET_CONSUMED_POWER@, line);
    assert(request_text(c) =~= START_MESSAGING_COMMAND@ + "\n"@ + GET_SOCKET_CONSUMED_POWER@
        + "\n"@ + ARGUMENTS@ + "\n"@ + line + "\n"@ + END_MESSAGING_COMMAND@);
    let ls = lines_of(request_text(c));
    lemma_request_arguments(ls, line);
    assert(words_of(line) =~= seq![room, device]);
}

/// Reading a well-formed command's text gives the command back.
pub proof fn lemma_parse_request_text(c: CommandView)
    requires
        well_formed(c),
    ensures
        parse_spec(request_text(c)) == Some(c),
{
    match c {
        CommandView::Switch(room, device, on) => lemma_parse_switch_text(room, device, on),
        CommandView::Power(room, device) => lemma_parse_power_text(room, device),
    }
}

fn malformed() -> (r: SmartHouseError)
    ensures
        r.kind == HouseErrorKind::MalformedRequest,
{
    SmartHouseError::of_kind(HouseErrorKind::MalformedRequest)
}

/// Parses a request text into a command.
pub fn parse_command(request: &str) -> (r: Result<Command, SmartHouseError>)
    ensures
        match r {
            Ok(c) => parse_spec(request@) == Some(c@),
            Err(e) => parse_spec(request@) is None && e.kind == HouseErrorKind::MalformedRequest,
        },
{
    proof {
        reveal_strlit("S_S_C");
        reveal_strlit("G_S_C_P");
    }
    assert(SWITCH_SOCKET_COMMAND@.len() != GET_SOCKET_CONSUMED_POWER@.len());
    let chars = chars_of(request);
    let lines = split_lines(&chars);
    let ghost ls = views_of(lines@);
    assert(ls.len() == lines@.len());
    if lines.len() < 2 {
        return Err(malformed());
    }
    assert(ls[0] == lines@[0]@ && ls[1] == lines@[1]@);
    if !same_chars(&lines[0], &chars_of(START_MESSAGING_COMMAND)) {
        return Err(malformed());
    }
    let args = collect_arguments(&lines);
    let ghost av = views_of(args@);
    assert(av.len() == args@.len());
    if same_chars(&lines[1], &chars_of(SWITCH_SOCKET_COMMAND)) {
        if args.len() != 3 {
            return Err(malformed());
        }
        assert(av[0] == args@[0]@ && av[1] == args@[1]@ && av[2] == args@[2]@);
        let on = same_chars(&args[2], &chars_of("true")) || same_chars(&args[2], &chars_of("t"));
        Ok(Command::SwitchSocketCommand(string_of(&args[0]), string_of(&args[1]), on))
    } else if same_chars(&lines[1], &chars_of(GET_SOCKET_CONSUMED_POWER)) {
        if args.len() != 2 {
            return Err(malformed());
        }
        assert(av[0] == args@[0]@ && av[1] == args@[1]@);
        Ok(Command::GetSocketConsumedPower(string_of(&args[0]), string_of(&args[1])))
    } else {
        Err(malformed())
    }
}

} // verus!
