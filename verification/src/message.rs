//! The decoded data types: prefix, command and message, their views into
//! the model, and the two textual renderings.

use vstd::prelude::*;
use vstd::string::StringExecFns;

use crate::model::CommandModel;
use crate::model::MessageModel;
use crate::model::PrefixModel;

verus! {

/// The decimal digit character for a value below ten.
pub open spec fn digit_char(d: nat) -> char {
    if d == 1 {
        '1'
    } else if d == 2 {
        '2'
    } else if d == 3 {
        '3'
    } else if d == 4 {
        '4'
    } else if d == 5 {
        '5'
    } else if d == 6 {
        '6'
    } else if d == 7 {
        '7'
    } else if d == 8 {
        '8'
    } else if d == 9 {
        '9'
    } else {
        '0'
    }
}

/// The decimal digits of `n`, most significant first, no leading zeros.
pub open spec fn dec_str(n: nat) -> Seq<char>
    decreases n,
    via dec_str_decreases
{
    if n < 10 {
        seq![digit_char(n)]
    } else {
        dec_str(n / 10).push(digit_char(n % 10))
    }
}

#[via_fn]
proof fn dec_str_decreases(n: nat) {
    if n >= 10 {
        vstd::arithmetic::div_mod::lemma_div_decreases(n as int, 10);
    }
}

/// The textual form of a prefix: the server name, or `nick!user@host`.
pub open spec fn render_prefix(p: PrefixModel) -> Seq<char> {
    match p {
        PrefixModel::Server(name) => name,
        PrefixModel::User(nick, user, host) => nick + seq!['!'] + user + seq!['@'] + host,
    }
}

/// The textual form of a command: the name verbatim, or the decimal digits
/// of the numeric code.
pub open spec fn render_command(c: CommandModel) -> Seq<char> {
    match c {
        CommandModel::Named(text) => text,
        CommandModel::Numeric(code) => dec_str(code as nat),
    }
}

/// The parameters joined by single spaces.
pub open spec fn ws_join(ps: Seq<Seq<char>>) -> Seq<char>
    decreases ps.len(),
{
    if ps.len() == 0 {
        Seq::empty()
    } else if ps.len() == 1 {
        ps[0]
    } else {
        ws_join(ps.drop_last()) + seq![' '] + ps.last()
    }
}

/// Each parameter followed by one space, in order.
pub open spec fn params_spaced(ps: Seq<Seq<char>>) -> Seq<char>
    decreases ps.len(),
{
    if ps.len() == 0 {
        Seq::empty()
    } else {
        params_spaced(ps.drop_last()) + ps.last() + seq![' ']
    }
}

/// The whitespace-joined rendering: command, then the prefix text if any,
/// then the parameters joined by single spaces.  Both separating spaces are
/// always emitted, so a message without a prefix shows two in a row.
pub open spec fn render_compact(m: MessageModel) -> Seq<char> {
    render_command(m.command) + seq![' '] + (match m.prefix {
        Some(p) => render_prefix(p),
        None => Seq::empty(),
    }) + seq![' '] + ws_join(m.params)
}

/// The near-wire rendering: `":" prefix " "` if a prefix is present, the
/// command, a space, and each parameter followed by one space.  The
/// trailing-parameter marker is not re-inserted, so this is not guaranteed
/// to decode back to the same message.
pub open spec fn render_line(m: MessageModel) -> Seq<char> {
    (match m.prefix {
        Some(p) => seq![':'] + render_prefix(p) + seq![' '],
        None => Seq::empty(),
    }) + render_command(m.command) + seq![' '] + params_spaced(m.params)
}

/// The sender of a line: a bare server name, or a client identity split
/// into nick, user and host.
#[derive(Debug)]
pub enum Prefix {
    Server(String),
    User(String, String, String),
}

/// The verb of a line: a named command kept verbatim, or a numeric reply
/// code.
#[derive(Debug)]
pub enum Command {
    Named(String),
    Numeric(u16),
}

/// One decoded line: optional sender prefix, command, and the ordered
/// parameters.  When the line carried a trailing-parameter marker, the last
/// element is the trailing text and is the only one that may contain spaces.
#[derive(Debug)]
pub struct Message {
    pub prefix: Option<Prefix>,
    pub command: Command,
    pub params: Vec<String>,
}

impl View for Prefix {
    type V = PrefixModel;

    open spec fn view(&self) -> PrefixModel {
        match self {
            Prefix::Server(name) => PrefixModel::Server(name@),
            Prefix::User(nick, user, host) => PrefixModel::User(nick@, user@, host@),
        }
    }
}

impl View for Command {
    type V = CommandModel;

    open spec fn view(&self) -> CommandModel {
        match self {
            Command::Named(text) => CommandModel::Named(text@),
            Command::Numeric(code) => CommandModel::Numeric(*code),
        }
    }
}

/// The model of an optional prefix.
pub open spec fn prefix_opt_view(p: Option<Prefix>) -> Option<PrefixModel> {
    match p {
        Some(q) => Some(q@),
        None => None,
    }
}

impl View for Message {
    type V = MessageModel;

    open spec fn view(&self) -> MessageModel {
        MessageModel {
            prefix: prefix_opt_view(self.prefix),
            command: self.command@,
            params: self.params.deep_view(),
        }
    }
}

/// The string holding one decimal digit character.
fn digit_str(d: u8) -> (r: &'static str)
    requires
        d < 10,
    ensures
        r@ == seq![digit_char(d as nat)],
{
    if d == 0 {
        proof {
            reveal_strlit("0");
            assert("0"@ =~= seq![digit_char(0)]);
        }
        "0"
    } else if d == 1 {
        proof {
            reveal_strlit("1");
            assert("1"@ =~= seq![digit_char(1)]);
        }
        "1"
    } else if d == 2 {
        proof {
            reveal_strlit("2");
            assert("2"@ =~= seq![digit_char(2)]);
        }
        "2"
    } else if d == 3 {
        proof {
            reveal_strlit("3");
            assert("3"@ =~= seq![digit_char(3)]);
        }
        "3"
    } else if d == 4 {
        proof {
            reveal_strlit("4");
            assert("4"@ =~= seq![digit_char(4)]);
        }
        "4"
    } else if d == 5 {
        proof {
            reveal_strlit("5");
            assert("5"@ =~= seq![digit_char(5)]);
        }
        "5"
    } else if d == 6 {
        proof {
            reveal_strlit("6");
            assert("6"@ =~= seq![digit_char(6)]);
        }
        "6"
    } else if d == 7 {
        proof {
            reveal_strlit("7");
            assert("7"@ =~= seq![digit_char(7)]);
        }
        "7"
    } else if d == 8 {
        proof {
            reveal_strlit("8");
            assert("8"@ =~= seq![digit_char(8)]);
        }
        "8"
    } else {
        proof {
            reveal_strlit("9");
            assert("9"@ =~= seq![digit_char(9)]);
        }
        "9"
    }
}

/// Appends the decimal digits of `n` to `out`.
fn push_u16(out: &mut String, n: u16)
    ensures
        final(out)@ == old(out)@ + dec_str(n as nat),
    decreases n,
{
    if n >= 10 {
        proof {
            vstd::arithmetic::div_mod::lemma_div_decreases(n as int, 10);
        }
        push_u16(out, n / 10);
        out.append(digit_str((n % 10) as u8));
        proof {
            assert(out@ =~= old(out)@ + dec_str(n as nat));
        }
    } else {
        out.append(digit_str(n as u8));
        proof {
            assert(out@ =~= old(out)@ + dec_str(n as nat));
        }
    }
}

impl Prefix {
    /// The prefix as text: the server name verbatim, or `nick!user@host`.
    pub fn to_text(&self) -> (r: String)
        ensures
            r@ == render_prefix(self@),
    {
        match self {
            Prefix::Server(name) => name.clone(),
            Prefix::User(nick, user, host) => {
                let mut out = nick.clone();
                out.append("!");
                out.append(user.as_str());
                out.append("@");
                out.append(host.as_str());
                proof {
                    reveal_strlit("!");
                    reveal_strlit("@");
                    assert("!"@ =~= seq!['!']);
                    assert("@"@ =~= seq!['@']);
                    assert(out@ =~= render_prefix(self@));
                }
                out
            },
        }
    }
}

impl Command {
    /// The command as text: the name verbatim, or the decimal digits of the
    /// numeric code.
    pub fn to_text(&self) -> (r: String)
        ensures
            r@ == render_command(self@),
    {
        match self {
            Command::Named(text) => text.clone(),
            Command::Numeric(code) => {
                let mut out = String::new();
                push_u16(&mut out, *code);
                proof {
                    assert(out@ =~= render_command(self@));
                }
                out
            },
        }
    }
}

impl Message {
    /// The whitespace-joined rendering, for compact single-line display:
    /// command, then the prefix text if any, then the parameters joined by
    /// single spaces.  Not guaranteed to decode back to the same message.
    pub fn to_whitespace_separated(&self) -> (r: String)
        ensures
            r@ == render_compact(self@),
    {
        let mut out = self.command.to_text();
        out.append(" ");
        match &self.prefix {
            Some(p) => {
                let t = p.to_text();
                out.append(t.as_str());
            },
            None => {},
        }
        out.append(" ");
        proof {
            reveal_strlit(" ");
            assert(" "@ =~= seq![' ']);
        }
        let ghost head: Seq<char> = out@;
        let ghost ps: Seq<Seq<char>> = self.params.deep_view();
        proof {
            assert(out@ =~= head + ws_join(ps.take(0)));
        }
        let mut i: usize = 0;
        while i < self.params.len()
            invariant
                i <= self.params.len(),
                ps == self.params.deep_view(),
                out@ == head + ws_join(ps.take(i as int)),
            decreases self.params.len() - i,
        {
            if i > 0 {
                out.append(" ");
            }
            out.append(self.params[i].as_str());
            proof {
                reveal_strlit(" ");
                assert(" "@ =~= seq![' ']);
                assert(ps.take(i + 1).last() == ps[i as int]);
                if i == 0 {
                    assert(ws_join(ps.take(1)) == ps[0]);
                } else {
                    assert(ps.take(i + 1).drop_last() =~= ps.take(i as int));
                }
                assert(out@ =~= head + ws_join(ps.take(i + 1)));
            }
            i = i + 1;
        }
        proof {
            assert(ps.take(self.params.len() as int) =~= ps);
            assert(out@ =~= render_compact(self@));
        }
        out
    }

    /// The near-wire rendering: `":" prefix " "` if a prefix is present, the
    /// command, a space, and each parameter followed by one space.  The
    /// trailing-parameter marker is not re-inserted, so this is not
    /// guaranteed to decode back to the same message.
    pub fn to_line(&self) -> (r: String)
        ensures
            r@ == render_line(self@),
    {
        let mut out = String::new();
        match &self.prefix {
            Some(p) => {
                out.append(":");
                let t = p.to_text();
                out.append(t.as_str());
                out.append(" ");
            },
            None => {},
        }
        let t = self.command.to_text();
        out.append(t.as_str());
        out.append(" ");
        proof {
            reveal_strlit(":");
            reveal_strlit(" ");
            assert(":"@ =~= seq![':']);
            assert(" "@ =~= seq![' ']);
        }
        let ghost head: Seq<char> = out@;
        let ghost ps: Seq<Seq<char>> = self.params.deep_view();
        proof {
            assert(out@ =~= head + params_spaced(ps.take(0)));
        }
        let mut i: usize = 0;
        while i < self.params.len()
            invariant
                i <= self.params.len(),
                ps == self.params.deep_view(),
                out@ == head + params_spaced(ps.take(i as int)),
            decreases self.params.len() - i,
        {
            out.append(self.params[i].as_str());
            out.append(" ");
            proof {
                reveal_strlit(" ");
                assert(" "@ =~= seq![' ']);
                assert(ps.take(i + 1).last() == ps[i as int]);
                assert(ps.take(i + 1).drop_last() =~= ps.take(i as int));
                assert(out@ =~= head + params_spaced(ps.take(i + 1)));
            }
            i = i + 1;
        }
        proof {
            assert(ps.take(self.params.len() as int) =~= ps);
            assert(out@ =~= render_line(self@));
        }
        out
    }
}

impl vstd::std_specs::cmp::PartialEqSpecImpl for Prefix {
    open spec fn obeys_eq_spec() -> bool {
        true
    }

    open spec fn eq_spec(&self, other: &Prefix) -> bool {
        self@ == other@
    }
}

impl PartialEq for Prefix {
    fn eq(&self, other: &Prefix) -> (r: bool) {
        match (self, other) {
            (Prefix::Server(a), Prefix::Server(b)) => a.eq(b),
            (Prefix::User(a0, a1, a2), Prefix::User(b0, b1, b2)) => a0.eq(b0) && a1.eq(b1)
                && a2.eq(b2),
            _ => false,
        }
    }
}

impl vstd::std_specs::cmp::PartialEqSpecImpl for Command {
    open spec fn obeys_eq_spec() -> bool {
        true
    }

    open spec fn eq_spec(&self, other: &Command) -> bool {
        self@ == other@
    }
}

impl PartialEq for Command {
    fn eq(&self, other: &Command) -> (r: bool) {
        match (self, other) {
            (Command::Named(a), Command::Named(b)) => a.eq(b),
            (Command::Numeric(a), Command::Numeric(b)) => *a == *b,
            _ => false,
        }
    }
}

} // verus!
