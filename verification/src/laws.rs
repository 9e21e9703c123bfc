//! Laws of the decoder, proved once and for all inputs: the round trip of
//! prefix rendering, the classification of command tokens, and the shape of
//! the parameters decoded from a well-formed line with a trailing marker.

use vstd::prelude::*;

use crate::error::ErrorKind;
use crate::message::render_prefix;
use crate::model::CommandModel;
use crate::model::MessageModel;
use crate::model::PrefixModel;
use crate::model::all_digits;
use crate::model::classify_command;
use crate::model::classify_word;
use crate::model::digits_val;
use crate::model::first_index;
use crate::model::lemma_first_index;
use crate::model::lemma_first_index_determined;
use crate::model::spec_command;
use crate::model::spec_decode;
use crate::model::spec_params;
use crate::model::spec_prefix;
use crate::model::split_spaces;

verus! {

/// Prefix round trip: rendering the classification of any word reproduces
/// the word exactly, whether it was read as a server name or as a
/// `nick!user@host` triple.
pub proof fn lemma_prefix_round_trip(w: Seq<char>)
    ensures
        render_prefix(classify_word(w)) == w,
{
    lemma_first_index(w, '!');
    match first_index(w, '!') {
        None => {},
        Some(i) => {
            let rest = w.skip(i + 1);
            lemma_first_index(rest, '@');
            match first_index(rest, '@') {
                None => {},
                Some(j) => {
                    assert(render_prefix(classify_word(w)) =~= w.take(i) + seq!['!'] + rest.take(
                        j,
                    ) + seq!['@'] + rest.skip(j + 1));
                    assert(w.take(i) + seq!['!'] + rest.take(j) + seq!['@'] + rest.skip(j + 1)
                        =~= w);
                },
            }
        },
    }
}

/// Command classification: a nonempty all-digit token whose value fits the
/// numeric range decodes to `Numeric` with that value; any other token
/// decodes to `Named`, kept verbatim.
pub proof fn lemma_command_classification(w: Seq<char>)
    ensures
        (w.len() > 0 && all_digits(w) && digits_val(w) <= u16::MAX) ==> classify_command(w)
            == CommandModel::Numeric(digits_val(w) as u16),
        !(w.len() > 0 && all_digits(w) && digits_val(w) <= u16::MAX) ==> classify_command(w)
            == CommandModel::Named(w),
{
}

/// Each middle parameter followed by one space, in order.
pub open spec fn mids_tokens(mids: Seq<Seq<char>>) -> Seq<char>
    decreases mids.len(),
{
    if mids.len() == 0 {
        Seq::empty()
    } else {
        mids.first() + seq![' '] + mids_tokens(mids.drop_first())
    }
}

/// A well-formed line with a trailing marker: the optional `':'`-marked
/// prefix word and its space, the command and its space, each middle
/// parameter followed by a space, then the `':'` marker, the trailing text
/// and the terminator.
pub open spec fn line_with_trailing(
    pword: Option<Seq<char>>,
    cmd: Seq<char>,
    mids: Seq<Seq<char>>,
    trailing: Seq<char>,
) -> Seq<char> {
    (match pword {
        Some(w) => seq![':'] + w + seq![' '],
        None => Seq::empty(),
    }) + cmd + seq![' '] + mids_tokens(mids) + seq![':'] + trailing + seq!['\r']
}

/// No character of `mids_tokens(mids)` is a space-free middle's forbidden
/// delimiter: the region contains no `':'` and no `'\r'` when no middle
/// does.
proof fn lemma_mids_tokens_chars(mids: Seq<Seq<char>>)
    requires
        forall|k: int| 0 <= k < mids.len() ==> !(#[trigger] mids[k]).contains(':') && !mids[
            k
        ].contains('\r'),
    ensures
        forall|j: int| 0 <= j < mids_tokens(mids).len() ==> mids_tokens(mids)[j] != ':'
            && mids_tokens(mids)[j] != '\r',
    decreases mids.len(),
{
    if mids.len() > 0 {
        assert(forall|k: int| 0 <= k < mids.drop_first().len() ==> mids.drop_first()[k]
            == mids[k + 1]);
        lemma_mids_tokens_chars(mids.drop_first());
        let m = mids.first();
        let t = mids_tokens(mids);
        assert forall|j: int| 0 <= j < t.len() implies t[j] != ':' && t[j] != '\r' by {
            if j < m.len() {
                assert(t[j] == m[j]);
                assert(m.contains(m[j]));
            } else if j == m.len() {
                assert(t[j] == ' ');
            } else {
                assert(t[j] == mids_tokens(mids.drop_first())[j - m.len() - 1]);
            }
        }
    }
}

/// Splitting the middle-parameter region back on spaces gives exactly the
/// middles it was built from, when each is nonempty and space-free.
proof fn lemma_split_spaces_tokens(mids: Seq<Seq<char>>)
    requires
        forall|k: int| 0 <= k < mids.len() ==> (#[trigger] mids[k]).len() > 0 && !mids[
            k
        ].contains(' '),
    ensures
        split_spaces(mids_tokens(mids)) == mids,
    decreases mids.len(),
{
    let t = mids_tokens(mids);
    if mids.len() == 0 {
        assert(split_spaces(t) =~= mids);
    } else {
        let m = mids.first();
        assert(t[m.len() as int] == ' ');
        assert forall|j: int| 0 <= j < m.len() implies t[j] != ' ' by {
            assert(t[j] == m[j]);
            assert(m.contains(m[j]));
        }
        lemma_first_index_determined(t, ' ', Some(m.len() as int));
        assert(t.take(m.len() as int) =~= m);
        assert(t.skip(m.len() as int + 1) =~= mids_tokens(mids.drop_first()));
        assert(forall|k: int| 0 <= k < mids.drop_first().len() ==> mids.drop_first()[k]
            == mids[k + 1]);
        lemma_split_spaces_tokens(mids.drop_first());
        assert(split_spaces(t) == seq![m] + mids.drop_first());
        assert(seq![m] + mids.drop_first() =~= mids);
    }
}

/// A well-formed line without a trailing marker: the optional `':'`-marked
/// prefix word and its space, the command and its space, each middle
/// parameter followed by a space, and the terminator.
pub open spec fn line_without_trailing(
    pword: Option<Seq<char>>,
    cmd: Seq<char>,
    mids: Seq<Seq<char>>,
) -> Seq<char> {
    (match pword {
        Some(w) => seq![':'] + w + seq![' '],
        None => Seq::empty(),
    }) + cmd + seq![' '] + mids_tokens(mids) + seq!['\r']
}

/// Decoding a well-formed line without a trailing marker: the whole
/// remainder is split on spaces, so the parameters are exactly the ordered
/// middles and no parameter can contain a space.
pub proof fn lemma_decode_without_trailing(
    pword: Option<Seq<char>>,
    cmd: Seq<char>,
    mids: Seq<Seq<char>>,
)
    requires
        pword matches Some(w) ==> !w.contains(' '),
        pword is None ==> cmd[0] != ':',
        cmd.len() > 0,
        !cmd.contains(' '),
        forall|k: int| 0 <= k < mids.len() ==> (#[trigger] mids[k]).len() > 0 && !mids[
            k
        ].contains(' ') && !mids[k].contains(':') && !mids[k].contains('\r'),
    ensures
        spec_decode(line_without_trailing(pword, cmd, mids)) == Ok::<_, ErrorKind>(
            MessageModel {
                prefix: match pword {
                    Some(w) => Some(classify_word(w)),
                    None => None,
                },
                command: classify_command(cmd),
                params: mids,
            },
        ),
{
    let line = line_without_trailing(pword, cmd, mids);
    let body = cmd + seq![' '] + mids_tokens(mids) + seq!['\r'];

    // The prefix stage leaves exactly `body`.
    match pword {
        Some(w) => {
            assert(line[0] == ':');
            let after = line.skip(1);
            assert(after[w.len() as int] == ' ');
            assert forall|j: int| 0 <= j < w.len() implies after[j] != ' ' by {
                assert(after[j] == w[j]);
                assert(w.contains(w[j]));
            }
            lemma_first_index_determined(after, ' ', Some(w.len() as int));
            assert(after.take(w.len() as int) =~= w);
            assert(after.skip(w.len() as int + 1) =~= body);
            assert(spec_prefix(line) == Ok::<_, ErrorKind>(
                (Some(classify_word(w)), after.skip(w.len() as int + 1)),
            ));
        },
        None => {
            assert(line =~= body);
            assert(line[0] == cmd[0]);
            assert(spec_prefix(line) == Ok::<_, ErrorKind>((None::<PrefixModel>, line)));
        },
    }

    // The command stage takes `cmd` and its space, leaving `tail`.
    let tail = mids_tokens(mids) + seq!['\r'];
    assert(body[cmd.len() as int] == ' ');
    assert forall|j: int| 0 <= j < cmd.len() implies body[j] != ' ' by {
        assert(body[j] == cmd[j]);
        assert(cmd.contains(cmd[j]));
    }
    lemma_first_index_determined(body, ' ', Some(cmd.len() as int));
    assert(body.take(cmd.len() as int) =~= cmd);
    assert(body.skip(cmd.len() as int + 1) =~= tail);
    assert(spec_command(body) == Ok::<_, ErrorKind>((classify_command(cmd), tail)));

    // The parameter stage finds the terminator at the end and no marker, so
    // the whole region is split on spaces.
    let mt = mids_tokens(mids);
    lemma_mids_tokens_chars(mids);
    assert(tail[mt.len() as int] == '\r');
    assert forall|j: int| 0 <= j < mt.len() implies tail[j] != '\r' by {
        assert(tail[j] == mt[j]);
    }
    lemma_first_index_determined(tail, '\r', Some(mt.len() as int));
    let region = tail.take(mt.len() as int);
    assert(region =~= mt);
    assert forall|j: int| 0 <= j < region.len() implies region[j] != ':' by {
        assert(region[j] == mt[j]);
    }
    lemma_first_index_determined(region, ':', None);
    lemma_split_spaces_tokens(mids);
    assert(spec_params(tail) == Ok::<_, ErrorKind>(split_spaces(region)));
}

/// Decoding a well-formed line with a trailing marker: the message carries
/// the classified prefix and command, and its parameters are exactly the
/// ordered middles followed by the trailing text, kept verbatim.
pub proof fn lemma_decode_with_trailing(
    pword: Option<Seq<char>>,
    cmd: Seq<char>,
    mids: Seq<Seq<char>>,
    trailing: Seq<char>,
)
    requires
        pword matches Some(w) ==> !w.contains(' '),
        pword is None ==> cmd[0] != ':',
        cmd.len() > 0,
        !cmd.contains(' '),
        forall|k: int| 0 <= k < mids.len() ==> (#[trigger] mids[k]).len() > 0 && !mids[
            k
        ].contains(' ') && !mids[k].contains(':') && !mids[k].contains('\r'),
        !trailing.contains('\r'),
    ensures
        spec_decode(line_with_trailing(pword, cmd, mids, trailing)) == Ok::<_, ErrorKind>(
            MessageModel {
                prefix: match pword {
                    Some(w) => Some(classify_word(w)),
                    None => None,
                },
                command: classify_command(cmd),
                params: mids.push(trailing),
            },
        ),
{
    let line = line_with_trailing(pword, cmd, mids, trailing);
    let body = cmd + seq![' '] + mids_tokens(mids) + seq![':'] + trailing + seq!['\r'];

    // The prefix stage leaves exactly `body`.
    match pword {
        Some(w) => {
            assert(line[0] == ':');
            let after = line.skip(1);
            assert(after[w.len() as int] == ' ');
            assert forall|j: int| 0 <= j < w.len() implies after[j] != ' ' by {
                assert(after[j] == w[j]);
                assert(w.contains(w[j]));
            }
            lemma_first_index_determined(after, ' ', Some(w.len() as int));
            assert(after.take(w.len() as int) =~= w);
            assert(after.skip(w.len() as int + 1) =~= body);
            assert(spec_prefix(line) == Ok::<_, ErrorKind>(
                (Some(classify_word(w)), after.skip(w.len() as int + 1)),
            ));
        },
        None => {
            assert(line =~= body);
            assert(line[0] == cmd[0]);
            assert(spec_prefix(line) == Ok::<_, ErrorKind>((None::<PrefixModel>, line)));
        },
    }

    // The command stage takes `cmd` and its space, leaving `tail`.
    let tail = mids_tokens(mids) + seq![':'] + trailing + seq!['\r'];
    assert(body[cmd.len() as int] == ' ');
    assert forall|j: int| 0 <= j < cmd.len() implies body[j] != ' ' by {
        assert(body[j] == cmd[j]);
        assert(cmd.contains(cmd[j]));
    }
    lemma_first_index_determined(body, ' ', Some(cmd.len() as int));
    assert(body.take(cmd.len() as int) =~= cmd);
    assert(body.skip(cmd.len() as int + 1) =~= tail);
    assert(spec_command(body) == Ok::<_, ErrorKind>((classify_command(cmd), tail)));

    // The parameter stage finds the terminator last and the marker right
    // after the middles.
    let mt = mids_tokens(mids);
    let tend = mt.len() + 1 + trailing.len();
    lemma_mids_tokens_chars(mids);
    assert(tail[tend as int] == '\r');
    assert forall|j: int| 0 <= j < tend implies tail[j] != '\r' by {
        if j < mt.len() {
            assert(tail[j] == mt[j]);
        } else if j == mt.len() {
            assert(tail[j] == ':');
        } else {
            assert(tail[j] == trailing[j - mt.len() - 1]);
            assert(trailing.contains(trailing[j - mt.len() - 1]));
        }
    }
    lemma_first_index_determined(tail, '\r', Some(tend as int));
    let region = tail.take(tend as int);
    assert(region[mt.len() as int] == ':');
    assert forall|j: int| 0 <= j < mt.len() implies region[j] != ':' by {
        assert(region[j] == mt[j]);
    }
    lemma_first_index_determined(region, ':', Some(mt.len() as int));
    assert(region.take(mt.len() as int) =~= mt);
    assert(region.skip(mt.len() as int + 1) =~= trailing);
    lemma_split_spaces_tokens(mids);
    assert(spec_params(tail) == Ok::<_, ErrorKind>(split_spaces(mt).push(trailing)));
}

} // verus!
