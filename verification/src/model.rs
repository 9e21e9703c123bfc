//! The mathematical model of the grammar: what each decoding stage returns,
//! stated as total spec functions over sequences of characters.

use vstd::prelude::*;

use crate::error::ErrorKind;

verus! {

/// Model of a sender prefix: a bare server name, or a `nick!user@host` triple.
pub ghost enum PrefixModel {
    Server(Seq<char>),
    User(Seq<char>, Seq<char>, Seq<char>),
}

/// Model of a command token: a named command or a numeric reply code.
pub ghost enum CommandModel {
    Named(Seq<char>),
    Numeric(u16),
}

/// Model of a whole decoded line.
pub ghost struct MessageModel {
    pub prefix: Option<PrefixModel>,
    pub command: CommandModel,
    pub params: Seq<Seq<char>>,
}

/// Index of the first occurrence of `c` in `s`, if there is one.
pub open spec fn first_index(s: Seq<char>, c: char) -> Option<int>
    decreases s.len(),
{
    if s.len() == 0 {
        None
    } else if s[0] == c {
        Some(0)
    } else {
        match first_index(s.drop_first(), c) {
            Some(i) => Some(i + 1),
            None => None,
        }
    }
}

/// What `first_index` returns: the index really is the first occurrence.
pub proof fn lemma_first_index(s: Seq<char>, c: char)
    ensures
        match first_index(s, c) {
            Some(i) => 0 <= i < s.len() && s[i] == c && (forall|j: int| 0 <= j < i ==> s[j] != c),
            None => forall|j: int| 0 <= j < s.len() ==> s[j] != c,
        },
    decreases s.len(),
{
    if s.len() == 0 {
    } else if s[0] == c {
    } else {
        lemma_first_index(s.drop_first(), c);
        assert forall|j: int| 1 <= j < s.len() implies s[j] == s.drop_first()[j - 1] by {}
    }
}

/// `first_index` is determined by the first-occurrence properties: any index
/// (or absence) with those properties is what `first_index` returns.
pub proof fn lemma_first_index_determined(s: Seq<char>, c: char, r: Option<int>)
    requires
        match r {
            Some(i) => 0 <= i < s.len() && s[i] == c && (forall|j: int| 0 <= j < i ==> s[j] != c),
            None => forall|j: int| 0 <= j < s.len() ==> s[j] != c,
        },
    ensures
        first_index(s, c) == r,
{
    lemma_first_index(s, c);
    match (first_index(s, c), r) {
        (Some(a), Some(b)) => {
            if a < b {
                assert(s[a] != c);
            } else if b < a {
                assert(s[b] != c);
            }
        },
        (Some(a), None) => {
            assert(s[a] != c);
        },
        (None, Some(b)) => {
            assert(s[b] != c);
        },
        (None, None) => {},
    }
}

/// The earlier of two optional indices.
pub open spec fn min_opt(a: Option<int>, b: Option<int>) -> Option<int> {
    match (a, b) {
        (None, None) => None,
        (Some(x), None) => Some(x),
        (None, Some(y)) => Some(y),
        (Some(x), Some(y)) => Some(if x <= y { x } else { y }),
    }
}

/// Whether `c` is a decimal digit.
pub open spec fn is_digit(c: char) -> bool {
    c == '0' || c == '1' || c == '2' || c == '3' || c == '4' || c == '5' || c == '6' || c == '7'
        || c == '8' || c == '9'
}

/// The value of a decimal digit; 0 for anything else.
pub open spec fn digit_of(c: char) -> nat {
    if c == '1' {
        1
    } else if c == '2' {
        2
    } else if c == '3' {
        3
    } else if c == '4' {
        4
    } else if c == '5' {
        5
    } else if c == '6' {
        6
    } else if c == '7' {
        7
    } else if c == '8' {
        8
    } else if c == '9' {
        9
    } else {
        0
    }
}

/// Whether every character of `w` is a decimal digit.
pub open spec fn all_digits(w: Seq<char>) -> bool {
    forall|i: int| 0 <= i < w.len() ==> is_digit(w[i])
}

/// The number that `w` denotes when read as decimal digits.
pub open spec fn digits_val(w: Seq<char>) -> nat
    decreases w.len(),
{
    if w.len() == 0 {
        0
    } else {
        digits_val(w.drop_last()) * 10 + digit_of(w.last())
    }
}

/// Reading more digits never shrinks the value: the value of a token's first
/// `i` characters is at most the value of its first `j`.
pub proof fn lemma_digits_val_monotone(w: Seq<char>, i: int, j: int)
    requires
        0 <= i <= j <= w.len(),
    ensures
        digits_val(w.take(i)) <= digits_val(w.take(j)),
    decreases j - i,
{
    if i < j {
        lemma_digits_val_monotone(w, i, j - 1);
        assert(w.take(j).drop_last() =~= w.take(j - 1));
    }
}

/// How a prefix word is classified: split at the first `'!'`, the remainder
/// at the first `'@'`; if either split fails the whole word is a server name.
pub open spec fn classify_word(w: Seq<char>) -> PrefixModel {
    match first_index(w, '!') {
        None => PrefixModel::Server(w),
        Some(i) => match first_index(w.skip(i + 1), '@') {
            None => PrefixModel::Server(w),
            Some(j) => PrefixModel::User(
                w.take(i),
                w.skip(i + 1).take(j),
                w.skip(i + 1).skip(j + 1),
            ),
        },
    }
}

/// How a command token is classified: a numeric code exactly when the token
/// is nonempty, all digits, and its value fits the numeric range; any other
/// token is a named command, kept verbatim.
pub open spec fn classify_command(w: Seq<char>) -> CommandModel {
    if w.len() > 0 && all_digits(w) && digits_val(w) <= u16::MAX {
        CommandModel::Numeric(digits_val(w) as u16)
    } else {
        CommandModel::Named(w)
    }
}

/// The prefix stage.  A line that does not open with `':'` has no prefix and
/// is passed through whole.  Otherwise the word after the `':'` runs to the
/// first space; a missing space is malformed.  Exactly one space is consumed
/// after the word.
pub open spec fn spec_prefix(s: Seq<char>) -> Result<(Option<PrefixModel>, Seq<char>), ErrorKind> {
    if s.len() == 0 || s[0] != ':' {
        Ok((None, s))
    } else {
        match first_index(s.skip(1), ' ') {
            None => Err(ErrorKind::Malformed),
            Some(i) => Ok((Some(classify_word(s.skip(1).take(i))), s.skip(1).skip(i + 1))),
        }
    }
}

/// The command stage.  The token runs to the first space (which is consumed);
/// if no space exists anywhere it runs to the trailing marker or terminator,
/// whichever comes first (not consumed).  No boundary at all means the line
/// ended early; an empty token means no command could be extracted.
pub open spec fn spec_command(s: Seq<char>) -> Result<(CommandModel, Seq<char>), ErrorKind> {
    match first_index(s, ' ') {
        Some(i) => if i == 0 {
            Err(ErrorKind::Malformed)
        } else {
            Ok((classify_command(s.take(i)), s.skip(i + 1)))
        },
        None => match min_opt(first_index(s, ':'), first_index(s, '\r')) {
            None => Err(ErrorKind::Incomplete),
            Some(b) => if b == 0 {
                Err(ErrorKind::Malformed)
            } else {
                Ok((classify_command(s.take(b)), s.skip(b)))
            },
        },
    }
}

/// Space-separated tokens of `s`, empty tokens dropped.
pub open spec fn split_spaces(s: Seq<char>) -> Seq<Seq<char>>
    decreases s.len(),
    via split_spaces_decreases
{
    if s.len() == 0 {
        Seq::empty()
    } else {
        match first_index(s, ' ') {
            None => seq![s],
            Some(i) => if i == 0 {
                split_spaces(s.skip(1))
            } else {
                seq![s.take(i)] + split_spaces(s.skip(i + 1))
            },
        }
    }
}

#[via_fn]
proof fn split_spaces_decreases(s: Seq<char>) {
    lemma_first_index(s, ' ');
}

/// The parameter stage over the text after the command.  The line runs to
/// the first `'\r'`; a missing terminator means the line is incomplete.  If
/// a `':'` occurs before the terminator, the text before it is split on
/// spaces and the text after it is one final parameter, kept verbatim;
/// otherwise the whole region is split on spaces.
pub open spec fn spec_params(s: Seq<char>) -> Result<Seq<Seq<char>>, ErrorKind> {
    match first_index(s, '\r') {
        None => Err(ErrorKind::Incomplete),
        Some(t) => {
            let region = s.take(t);
            match first_index(region, ':') {
                None => Ok(split_spaces(region)),
                Some(m) => Ok(split_spaces(region.take(m)).push(region.skip(m + 1))),
            }
        },
    }
}

/// The whole decoder: prefix, then command, then parameters, each over what
/// the stage before left.
pub open spec fn spec_decode(s: Seq<char>) -> Result<MessageModel, ErrorKind> {
    match spec_prefix(s) {
        Err(k) => Err(k),
        Ok((prefix, rest)) => match spec_command(rest) {
            Err(k) => Err(k),
            Ok((command, rest2)) => match spec_params(rest2) {
                Err(k) => Err(k),
                Ok(params) => Ok(MessageModel { prefix, command, params }),
            },
        },
    }
}

} // verus!
