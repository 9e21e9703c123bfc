//! The decoding stages: prefix, command and parameters, composed into the
//! line decoder.  Each stage is proved equal to its spec-level counterpart
//! in `model`.

use vstd::prelude::*;
use vstd::string::StrSliceExecFns;
use vstd::string::StringExecFns;

use crate::error::ErrorKind;
use crate::error::ParserError;
use crate::message::Command;
use crate::message::Message;
use crate::message::Prefix;
use crate::message::prefix_opt_view;
use crate::model::CommandModel;
use crate::model::MessageModel;
use crate::model::PrefixModel;
use crate::model::all_digits;
use crate::model::classify_command;
use crate::model::classify_word;
use crate::model::digit_of;
use crate::model::digits_val;
use crate::model::first_index;
use crate::model::is_digit;
use crate::model::lemma_digits_val_monotone;
use crate::model::min_opt;
use crate::model::spec_command;
use crate::model::spec_decode;
use crate::model::spec_params;
use crate::model::spec_prefix;
use crate::model::split_spaces;
use crate::scan::find_char_in;
use crate::scan::lemma_find_in_subrange;
use crate::scan::string_of;

verus! {

/// The word at the start of `s`: everything before the first space, or all
/// of `s` when it has none.
pub open spec fn prefix_word(s: Seq<char>) -> Seq<char> {
    match first_index(s, ' ') {
        Some(i) => s.take(i),
        None => s,
    }
}

/// The value of a decimal digit character, if it is one.
fn digit_value(c: char) -> (r: Option<u8>)
    ensures
        match r {
            Some(d) => is_digit(c) && d < 10 && digit_of(c) == d as nat,
            None => !is_digit(c),
        },
{
    if c == '0' {
        Some(0)
    } else if c == '1' {
        Some(1)
    } else if c == '2' {
        Some(2)
    } else if c == '3' {
        Some(3)
    } else if c == '4' {
        Some(4)
    } else if c == '5' {
        Some(5)
    } else if c == '6' {
        Some(6)
    } else if c == '7' {
        Some(7)
    } else if c == '8' {
        Some(8)
    } else if c == '9' {
        Some(9)
    } else {
        None
    }
}

/// Classifies the word `s[lo..hi]` as a user-identity triple or a bare
/// server name, as `classify_word` says.
fn classify_word_range(s: &str, lo: usize, hi: usize) -> (p: Prefix)
    requires
        lo <= hi <= s@.len(),
    ensures
        p@ == classify_word(s@.subrange(lo as int, hi as int)),
{
    let ghost w = s@.subrange(lo as int, hi as int);
    match find_char_in(s, lo, hi, '!') {
        None => {
            proof {
                lemma_find_in_subrange(s@, lo as int, hi as int, '!', None);
            }
            Prefix::Server(string_of(s, lo, hi))
        },
        Some(i) => {
            proof {
                lemma_find_in_subrange(s@, lo as int, hi as int, '!', Some(i as int));
                assert(w.skip(i - lo + 1) =~= s@.subrange(i + 1, hi as int));
            }
            match find_char_in(s, i + 1, hi, '@') {
                None => {
                    proof {
                        lemma_find_in_subrange(s@, i + 1, hi as int, '@', None);
                    }
                    Prefix::Server(string_of(s, lo, hi))
                },
                Some(j) => {
                    proof {
                        lemma_find_in_subrange(s@, i + 1, hi as int, '@', Some(j as int));
                        assert(w.take(i - lo) =~= s@.subrange(lo as int, i as int));
                        assert(w.skip(i - lo + 1).take(j - (i + 1)) =~= s@.subrange(
                            i + 1,
                            j as int,
                        ));
                        assert(w.skip(i - lo + 1).skip(j - (i + 1) + 1) =~= s@.subrange(
                            j + 1,
                            hi as int,
                        ));
                    }
                    Prefix::User(
                        string_of(s, lo, i),
                        string_of(s, i + 1, j),
                        string_of(s, j + 1, hi),
                    )
                },
            }
        },
    }
}

/// The prefix stage over the whole line: recognizes an optional leading
/// `':'`-marked word and consumes the single space after it, returning the
/// position where the rest of the line begins.
fn scan_prefix(s: &str) -> (r: Result<(Option<Prefix>, usize), ParserError>)
    ensures
        match r {
            Ok((p, pos)) => pos <= s@.len() && spec_prefix(s@) == Ok::<_, ErrorKind>(
                (prefix_opt_view(p), s@.skip(pos as int)),
            ),
            Err(e) => spec_prefix(s@) == Err::<(Option<PrefixModel>, Seq<char>), _>(e.kind),
        },
{
    let n = s.unicode_len();
    if n == 0 || s.get_char(0) != ':' {
        proof {
            assert(s@.skip(0) =~= s@);
        }
        return Ok((None, 0));
    }
    proof {
        assert(s@.skip(1) =~= s@.subrange(1, n as int));
    }
    match find_char_in(s, 1, n, ' ') {
        None => {
            proof {
                lemma_find_in_subrange(s@, 1, n as int, ' ', None);
            }
            Err(
                ParserError {
                    kind: ErrorKind::Malformed,
                    data: String::from_str("prefix word is not followed by a space"),
                },
            )
        },
        Some(i) => {
            let p = classify_word_range(s, 1, i);
            proof {
                lemma_find_in_subrange(s@, 1, n as int, ' ', Some(i as int));
                assert(s@.skip(1).take(i - 1) =~= s@.subrange(1, i as int));
                assert(s@.skip(1).skip(i - 1 + 1) =~= s@.skip(i + 1));
            }
            Ok((Some(p), i + 1))
        },
    }
}

/// Classifies the token `s[lo..hi]` as a numeric code or a named command,
/// as `classify_command` says.
fn classify_command_range(s: &str, lo: usize, hi: usize) -> (c: Command)
    requires
        lo <= hi <= s@.len(),
    ensures
        c@ == classify_command(s@.subrange(lo as int, hi as int)),
{
    let ghost w = s@.subrange(lo as int, hi as int);
    let mut acc: u32 = 0;
    let mut i: usize = lo;
    while i < hi
        invariant
            lo <= i <= hi <= s@.len(),
            w == s@.subrange(lo as int, hi as int),
            forall|k: int| 0 <= k < i - lo ==> is_digit(w[k]),
            acc <= 65535,
            acc as nat == digits_val(w.take(i - lo)),
        decreases hi - i,
    {
        let ch = s.get_char(i);
        match digit_value(ch) {
            None => {
                proof {
                    assert(w[i - lo] == s@[i as int]);
                    assert(!all_digits(w));
                }
                return Command::Named(string_of(s, lo, hi));
            },
            Some(d) => {
                proof {
                    assert(w[i - lo] == s@[i as int]);
                    assert(w.take(i - lo + 1).drop_last() =~= w.take(i - lo));
                    assert(digits_val(w.take(i - lo + 1)) == digits_val(w.take(i - lo)) * 10
                        + digit_of(w[i - lo]));
                }
                let next: u32 = acc * 10 + (d as u32);
                if next > 65535 {
                    proof {
                        lemma_digits_val_monotone(w, i - lo + 1, w.len() as int);
                        assert(w.take(w.len() as int) =~= w);
                        assert(digits_val(w) > u16::MAX);
                    }
                    return Command::Named(string_of(s, lo, hi));
                }
                acc = next;
            },
        }
        i = i + 1;
    }
    if lo == hi {
        return Command::Named(string_of(s, lo, hi));
    }
    proof {
        assert(w.take(w.len() as int) =~= w);
        assert(all_digits(w));
    }
    Command::Numeric(acc as u16)
}

/// The command stage: extracts and classifies the command token beginning
/// at `pos`, returning the position where the parameter text begins.
fn scan_command(s: &str, pos: usize) -> (r: Result<(Command, usize), ParserError>)
    requires
        pos <= s@.len(),
    ensures
        match r {
            Ok((c, p2)) => p2 <= s@.len() && spec_command(s@.skip(pos as int)) == Ok::<
                _,
                ErrorKind,
            >((c@, s@.skip(p2 as int))),
            Err(e) => spec_command(s@.skip(pos as int)) == Err::<(CommandModel, Seq<char>), _>(
                e.kind,
            ),
        },
{
    let n = s.unicode_len();
    let ghost rest = s@.skip(pos as int);
    proof {
        assert(rest =~= s@.subrange(pos as int, n as int));
    }
    match find_char_in(s, pos, n, ' ') {
        Some(i) => {
            proof {
                lemma_find_in_subrange(s@, pos as int, n as int, ' ', Some(i as int));
            }
            if i == pos {
                return Err(
                    ParserError {
                        kind: ErrorKind::Malformed,
                        data: String::from_str("no command token before the next space"),
                    },
                );
            }
            let c = classify_command_range(s, pos, i);
            proof {
                assert(rest.take(i - pos) =~= s@.subrange(pos as int, i as int));
                assert(rest.skip(i - pos + 1) =~= s@.skip(i + 1));
            }
            Ok((c, i + 1))
        },
        None => {
            proof {
                lemma_find_in_subrange(s@, pos as int, n as int, ' ', None);
            }
            let ci = find_char_in(s, pos, n, ':');
            let ti = find_char_in(s, pos, n, '\r');
            proof {
                lemma_find_in_subrange(
                    s@,
                    pos as int,
                    n as int,
                    ':',
                    match ci {
                        Some(x) => Some(x as int),
                        None => None,
                    },
                );
                lemma_find_in_subrange(
                    s@,
                    pos as int,
                    n as int,
                    '\r',
                    match ti {
                        Some(x) => Some(x as int),
                        None => None,
                    },
                );
            }
            let b: usize = match (ci, ti) {
                (None, None) => {
                    return Err(
                        ParserError {
                            kind: ErrorKind::Incomplete,
                            data: String::from_str("input ended before any command boundary"),
                        },
                    );
                },
                (Some(x), None) => x,
                (None, Some(y)) => y,
                (Some(x), Some(y)) => if x <= y {
                    x
                } else {
                    y
                },
            };
            proof {
                assert(min_opt(first_index(rest, ':'), first_index(rest, '\r')) == Some(
                    b - pos,
                ));
            }
            if b == pos {
                return Err(
                    ParserError {
                        kind: ErrorKind::Malformed,
                        data: String::from_str("no command token before the line boundary"),
                    },
                );
            }
            let c = classify_command_range(s, pos, b);
            proof {
                assert(rest.take(b - pos) =~= s@.subrange(pos as int, b as int));
                assert(rest.skip(b - pos) =~= s@.skip(b as int));
            }
            Ok((c, b))
        },
    }
}

/// Splits `s[lo..hi]` on spaces into owned tokens, dropping empty ones, as
/// `split_spaces` says.
fn split_spaces_range(s: &str, lo: usize, hi: usize) -> (v: Vec<String>)
    requires
        lo <= hi <= s@.len(),
    ensures
        v.deep_view() == split_spaces(s@.subrange(lo as int, hi as int)),
{
    let ghost whole = s@.subrange(lo as int, hi as int);
    let mut v: Vec<String> = Vec::new();
    let mut p: usize = lo;
    proof {
        assert(v.deep_view() + split_spaces(whole) =~= split_spaces(whole));
    }
    while p < hi
        invariant
            lo <= p <= hi <= s@.len(),
            whole == s@.subrange(lo as int, hi as int),
            v.deep_view() + split_spaces(s@.subrange(p as int, hi as int)) == split_spaces(whole),
        decreases hi - p,
    {
        let ghost cur = s@.subrange(p as int, hi as int);
        let ghost dv = v.deep_view();
        let c = s.get_char(p);
        if c == ' ' {
            proof {
                assert(cur[0] == ' ');
                assert(cur.skip(1) =~= s@.subrange(p + 1, hi as int));
            }
            p = p + 1;
        } else {
            match find_char_in(s, p, hi, ' ') {
                Some(q) => {
                    let tok = string_of(s, p, q);
                    let ghost tokv = tok@;
                    v.push(tok);
                    proof {
                        lemma_find_in_subrange(s@, p as int, hi as int, ' ', Some(q as int));
                        assert(cur.take(q - p) =~= tokv);
                        assert(cur.skip(q - p + 1) =~= s@.subrange(q + 1, hi as int));
                        assert(split_spaces(cur) == seq![cur.take(q - p)] + split_spaces(
                            cur.skip(q - p + 1),
                        ));
                        assert(v.deep_view() =~= dv + seq![tokv]);
                        assert(v.deep_view() + split_spaces(s@.subrange(q + 1, hi as int)) =~= dv
                            + split_spaces(cur));
                    }
                    p = q + 1;
                },
                None => {
                    let tok = string_of(s, p, hi);
                    let ghost tokv = tok@;
                    v.push(tok);
                    proof {
                        lemma_find_in_subrange(s@, p as int, hi as int, ' ', None);
                        assert(split_spaces(cur) == seq![cur]);
                        assert(v.deep_view() =~= dv + seq![tokv]);
                        assert(s@.subrange(hi as int, hi as int).len() == 0);
                        assert(v.deep_view() + split_spaces(s@.subrange(hi as int, hi as int))
                            =~= dv + split_spaces(cur));
                    }
                    p = hi;
                },
            }
        }
    }
    proof {
        assert(s@.subrange(hi as int, hi as int).len() == 0);
        assert(v.deep_view() + split_spaces(s@.subrange(hi as int, hi as int)) =~= v.deep_view());
    }
    v
}

/// The parameter stage: splits everything from `pos` up to the terminator
/// into middle parameters and, when a trailing marker is present, one final
/// verbatim parameter.
fn scan_params(s: &str, pos: usize) -> (r: Result<Vec<String>, ParserError>)
    requires
        pos <= s@.len(),
    ensures
        match r {
            Ok(v) => spec_params(s@.skip(pos as int)) == Ok::<_, ErrorKind>(v.deep_view()),
            Err(e) => spec_params(s@.skip(pos as int)) == Err::<Seq<Seq<char>>, _>(e.kind),
        },
{
    let n = s.unicode_len();
    let ghost rest = s@.skip(pos as int);
    proof {
        assert(rest =~= s@.subrange(pos as int, n as int));
    }
    match find_char_in(s, pos, n, '\r') {
        None => {
            proof {
                lemma_find_in_subrange(s@, pos as int, n as int, '\r', None);
            }
            Err(
                ParserError {
                    kind: ErrorKind::Incomplete,
                    data: String::from_str("input ended before the line terminator"),
                },
            )
        },
        Some(t) => {
            proof {
                lemma_find_in_subrange(s@, pos as int, n as int, '\r', Some(t as int));
                assert(rest.take(t - pos) =~= s@.subrange(pos as int, t as int));
            }
            let ghost region = rest.take(t - pos);
            match find_char_in(s, pos, t, ':') {
                None => {
                    proof {
                        lemma_find_in_subrange(s@, pos as int, t as int, ':', None);
                    }
                    let v = split_spaces_range(s, pos, t);
                    Ok(v)
                },
                Some(m) => {
                    proof {
                        lemma_find_in_subrange(s@, pos as int, t as int, ':', Some(m as int));
                        assert(region.take(m - pos) =~= s@.subrange(pos as int, m as int));
                        assert(region.skip(m - pos + 1) =~= s@.subrange(m + 1, t as int));
                    }
                    let mut v = split_spaces_range(s, pos, m);
                    let ghost dv = v.deep_view();
                    let trailing = string_of(s, m + 1, t);
                    let ghost trailv = trailing@;
                    v.push(trailing);
                    proof {
                        assert(v.deep_view() =~= dv.push(trailv));
                    }
                    Ok(v)
                },
            }
        },
    }
}

/// Decodes one protocol line, terminated by `'\r'`, into a message.
///
/// Total over all inputs: every line yields either the decoded message or
/// an error whose kind says whether the line was cut short (`Incomplete`)
/// or structurally invalid (`Malformed`), exactly as `spec_decode` says.
pub fn parse_message(input: &str) -> (r: Result<Message, ParserError>)
    ensures
        match r {
            Ok(m) => spec_decode(input@) == Ok::<_, ErrorKind>(m@),
            Err(e) => spec_decode(input@) == Err::<MessageModel, _>(e.kind),
        },
{
    let (prefix, pos) = match scan_prefix(input) {
        Ok(x) => x,
        Err(e) => {
            return Err(e);
        },
    };
    let (command, pos2) = match scan_command(input, pos) {
        Ok(x) => x,
        Err(e) => {
            return Err(e);
        },
    };
    let params = match scan_params(input, pos2) {
        Ok(x) => x,
        Err(e) => {
            return Err(e);
        },
    };
    Ok(Message { prefix, command, params })
}

/// The prefix stage alone: an optional leading `':'`-marked prefix and the
/// rest of the line after its single space separator.  A line that does not
/// open with `':'` comes back whole, with no prefix.
pub fn parse_prefix<'a>(input: &'a str) -> (r: Result<(Option<Prefix>, &'a str), ParserError>)
    ensures
        match r {
            Ok((p, rest)) => spec_prefix(input@) == Ok::<_, ErrorKind>(
                (prefix_opt_view(p), rest@),
            ),
            Err(e) => spec_prefix(input@) == Err::<(Option<PrefixModel>, Seq<char>), _>(e.kind),
        },
{
    match scan_prefix(input) {
        Ok((p, pos)) => {
            let n = input.unicode_len();
            let rest = input.substring_char(pos, n);
            proof {
                assert(rest@ =~= input@.skip(pos as int));
            }
            Ok((p, rest))
        },
        Err(e) => Err(e),
    }
}

/// The user-identity sub-parse of the prefix decoder, applied to the word
/// at the start of `input`: the text before the first `'!'` is the nick,
/// the text between the `'!'` and the first following `'@'` is the user,
/// and the remainder of the word is the host.  Fails exactly when the word
/// is classified as a bare server name instead.
pub fn parse_user_prefix(input: &str) -> (r: Result<(String, String, String), ParserError>)
    ensures
        (match r {
            Ok((nick, user, host)) => classify_word(prefix_word(input@)) == PrefixModel::User(
                nick@,
                user@,
                host@,
            ),
            Err(e) => classify_word(prefix_word(input@)) is Server && e.kind
                == ErrorKind::Malformed,
        }),
{
    let n = input.unicode_len();
    let wend: usize = match find_char_in(input, 0, n, ' ') {
        Some(i) => {
            proof {
                lemma_find_in_subrange(input@, 0, n as int, ' ', Some(i as int));
                assert(input@.subrange(0, n as int) =~= input@);
                assert(input@.take(i as int) =~= input@.subrange(0, i as int));
            }
            i
        },
        None => {
            proof {
                lemma_find_in_subrange(input@, 0, n as int, ' ', None);
                assert(input@.subrange(0, n as int) =~= input@);
            }
            n
        },
    };
    match classify_word_range(input, 0, wend) {
        Prefix::User(nick, user, host) => Ok((nick, user, host)),
        Prefix::Server(_) => Err(
            ParserError {
                kind: ErrorKind::Malformed,
                data: String::from_str("word is not a nick!user@host triple"),
            },
        ),
    }
}

} // verus!
