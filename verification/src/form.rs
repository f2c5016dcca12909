//! The body as `name=value` pairs.

use crate::body::{text_fields, Body, Data, Field};
use crate::text::{after, before, lacks, lemma_cut_at_char, lemma_find_absent, split};
use vstd::prelude::*;

verus! {

/// A pair as it is written: `name=value`.
pub open spec fn pair_text(pair: (Seq<char>, Seq<char>)) -> Seq<char> {
    pair.0 + "="@ + pair.1
}

/// The pairs as they are written, with `&` between one pair and the next,
/// and nowhere else.
pub open spec fn joined_pairs(pairs: Seq<(Seq<char>, Seq<char>)>) -> Seq<char>
    decreases pairs.len(),
{
    if pairs.len() == 0 {
        Seq::empty()
    } else if pairs.len() == 1 {
        pair_text(pairs[0])
    } else {
        joined_pairs(pairs.drop_last()) + "&"@ + pair_text(pairs.last())
    }
}

/// The body as `name=value` pairs: those of its text fields, in their
/// order, joined by `&`. File fields are left out.
pub open spec fn form_text(fields: Seq<(Seq<char>, Field)>) -> Seq<char> {
    joined_pairs(text_fields(fields))
}

/// The body as `name=value` pairs.
pub fn urlencoded_body(body: &Body) -> (text: String)
    ensures
        text@ == form_text(body@),
{
    let n = body.len();
    let mut text = String::new();
    let mut first = true;
    let mut i: usize = 0;
    assert(body@.take(0) =~= Seq::<(Seq<char>, Field)>::empty());
    while i < n
        invariant
            n == body@.len(),
            i <= n,
            text@ == form_text(body@.take(i as int)),
            first == (text_fields(body@.take(i as int)).len() == 0),
        decreases n - i,
    {
        proof {
            assert(body@.take(i + 1).drop_last() =~= body@.take(i as int));
            assert(body@.take(i + 1).last() == body@[i as int]);
        }
        let ghost front = text@;
        let ghost pairs = text_fields(body@.take(i as int));
        match body.value_at(i) {
            Data::String(value) => {
                let ghost pair = (body@[i as int].0, value@);
                if !first {
                    text.append("&");
                }
                text.append(body.name_at(i).as_str());
                text.append("=");
                text.append(value.as_str());
                first = false;
                proof {
                    assert(pairs.push(pair).drop_last() =~= pairs);
                    if pairs.len() == 0 {
                        assert(text@ =~= pair_text(pair));
                    } else {
                        assert(text@ =~= front + "&"@ + pair_text(pair));
                    }
                }
            },
            Data::File(_) => {},
        }
        i += 1;
    }
    assert(body@.take(n as int) =~= body@);
    text
}

/// The pair that a piece of such a body holds: what stands in front of its
/// first `=`, and what stands behind it.
pub open spec fn pair_of(piece: Seq<char>) -> (Seq<char>, Seq<char>) {
    (before(piece, "="@), after(piece, "="@))
}

/// The pieces of a text of `name=value` pairs: what stands between one `&`
/// and the next. The empty text has none.
pub open spec fn form_pieces(text: Seq<char>) -> Seq<Seq<char>> {
    if text.len() == 0 {
        Seq::empty()
    } else {
        split(text, "&"@)
    }
}

/// The pairs that a text of `name=value` pairs holds: one for each of its
/// pieces.
pub open spec fn form_fields(text: Seq<char>) -> Seq<(Seq<char>, Seq<char>)> {
    form_pieces(text).map_values(|piece: Seq<char>| pair_of(piece))
}

/// The pairs can be told apart in the text: no name holds `&` or `=`, and
/// no value holds `&`.
pub open spec fn plain_pairs(pairs: Seq<(Seq<char>, Seq<char>)>) -> bool {
    forall|i: int|
        0 <= i < pairs.len() ==> {
            &&& lacks((#[trigger] pairs[i]).0, '&')
            &&& lacks(pairs[i].0, '=')
            &&& lacks(pairs[i].1, '&')
        }
}

/// The text fields can be told apart in the text: no name of a text field
/// holds `&` or `=`, and no text holds `&`.
pub open spec fn plain_fields(fields: Seq<(Seq<char>, Field)>) -> bool {
    forall|i: int|
        0 <= i < fields.len() ==> match (#[trigger] fields[i]).1 {
            Field::Text(value) => {
                &&& lacks(fields[i].0, '&')
                &&& lacks(fields[i].0, '=')
                &&& lacks(value, '&')
            },
            Field::File(_) => true,
        }
}

/// Where the text fields can be told apart, so can their pairs.
pub proof fn lemma_plain_fields(fields: Seq<(Seq<char>, Field)>)
    requires
        plain_fields(fields),
    ensures
        plain_pairs(text_fields(fields)),
    decreases fields.len(),
{
    if fields.len() > 0 {
        let front = fields.drop_last();
        assert forall|i: int| 0 <= i < front.len() implies match (#[trigger] front[i]).1 {
            Field::Text(value) => {
                &&& lacks(front[i].0, '&')
                &&& lacks(front[i].0, '=')
                &&& lacks(value, '&')
            },
            Field::File(_) => true,
        } by {
            assert(front[i] == fields[i]);
        }
        lemma_plain_fields(front);
        let pairs = text_fields(fields);
        let last = fields[fields.len() - 1];
        assert forall|i: int| 0 <= i < pairs.len() implies {
            &&& lacks((#[trigger] pairs[i]).0, '&')
            &&& lacks(pairs[i].0, '=')
            &&& lacks(pairs[i].1, '&')
        } by {
            if i < text_fields(front).len() {
                assert(pairs[i] == text_fields(front)[i]);
            } else {
                assert(pairs[i].0 == last.0);
            }
        }
    }
}

/// Two or more pairs are written as the first, an `&`, and the others.
pub proof fn lemma_joined_first(pairs: Seq<(Seq<char>, Seq<char>)>)
    requires
        pairs.len() >= 2,
    ensures
        joined_pairs(pairs) == pair_text(pairs[0]) + "&"@ + joined_pairs(pairs.drop_first()),
    decreases pairs.len(),
{
    let front = pairs.drop_last();
    let rest = pairs.drop_first();
    assert(rest.last() == pairs.last());
    assert(front[0] == pairs[0]);
    if pairs.len() == 2 {
        assert(rest.len() == 1);
        assert(front.len() == 1);
        assert(rest[0] == pairs.last());
        assert(joined_pairs(front) == pair_text(front[0]));
        assert(joined_pairs(rest) == pair_text(rest[0]));
        assert(joined_pairs(pairs) =~= pair_text(pairs[0]) + "&"@ + joined_pairs(rest));
    } else {
        lemma_joined_first(front);
        assert(front.drop_first() =~= rest.drop_last());
        assert(joined_pairs(pairs) =~= pair_text(pairs[0]) + "&"@ + joined_pairs(rest));
    }
}

/// A pair is written with its `=`, is read back as it was, and holds no
/// `&`.
pub proof fn lemma_pair(pair: (Seq<char>, Seq<char>))
    requires
        lacks(pair.0, '&'),
        lacks(pair.0, '='),
        lacks(pair.1, '&'),
    ensures
        pair_of(pair_text(pair)) == pair,
        lacks(pair_text(pair), '&'),
        !lacks(pair_text(pair), '='),
        pair_text(pair).len() > 0,
{
    reveal_strlit("=");
    reveal_strlit("&");
    lemma_cut_at_char(pair.0, "="@, pair.1);
    assert(pair_text(pair)[pair.0.len() as int] == '=');
}

/// The pieces of the written pairs are the pairs as they are written: as
/// many pieces as pairs, each with its `=`, and no empty piece in front of
/// them, between them or behind them.
pub proof fn lemma_pieces_of_pairs(pairs: Seq<(Seq<char>, Seq<char>)>)
    requires
        plain_pairs(pairs),
    ensures
        form_pieces(joined_pairs(pairs)) == pairs.map_values(
            |pair: (Seq<char>, Seq<char>)| pair_text(pair),
        ),
    decreases pairs.len(),
{
    reveal_strlit("&");
    let amp = "&"@;
    let written = pairs.map_values(|pair: (Seq<char>, Seq<char>)| pair_text(pair));
    if pairs.len() == 0 {
        assert(form_pieces(joined_pairs(pairs)) =~= written);
    } else {
        let first = pair_text(pairs[0]);
        lemma_pair(pairs[0]);
        if pairs.len() == 1 {
            lemma_find_absent(first, amp);
            assert(form_pieces(joined_pairs(pairs)) =~= written);
        } else {
            let rest = pairs.drop_first();
            assert forall|i: int| 0 <= i < rest.len() implies {
                &&& lacks((#[trigger] rest[i]).0, '&')
                &&& lacks(rest[i].0, '=')
                &&& lacks(rest[i].1, '&')
            } by {
                assert(rest[i] == pairs[i + 1]);
            }
            lemma_pieces_of_pairs(rest);
            lemma_joined_first(pairs);
            let tail = joined_pairs(rest);
            lemma_joined_len(rest);
            lemma_cut_at_char(first, amp, tail);
            let text = first + amp + tail;
            assert(text.len() > 0);
            assert(split(text, amp) == seq![first] + split(tail, amp));
            assert(form_pieces(tail) == split(tail, amp));
            let others = rest.map_values(|pair: (Seq<char>, Seq<char>)| pair_text(pair));
            assert(seq![first] + others =~= written);
        }
    }
}

/// Pairs that are written make a text, unless there is none.
pub proof fn lemma_joined_len(pairs: Seq<(Seq<char>, Seq<char>)>)
    ensures
        pairs.len() > 0 ==> joined_pairs(pairs).len() > 0,
        pairs.len() == 0 ==> joined_pairs(pairs) == Seq::<char>::empty(),
{
    reveal_strlit("=");
    reveal_strlit("&");
}

/// Reading the pairs back gives the text fields: their names and values, in
/// their order, and nothing else. File fields are not among them.
pub proof fn lemma_form_round_trip(fields: Seq<(Seq<char>, Field)>)
    requires
        plain_pairs(text_fields(fields)),
    ensures
        form_fields(form_text(fields)) == text_fields(fields),
{
    let pairs = text_fields(fields);
    lemma_pieces_of_pairs(pairs);
    let written = pairs.map_values(|pair: (Seq<char>, Seq<char>)| pair_text(pair));
    assert forall|i: int| 0 <= i < pairs.len() implies pair_of(#[trigger] written[i])
        == pairs[i] by {
        lemma_pair(pairs[i]);
    }
    assert(form_fields(form_text(fields)) =~= pairs);
}

/// The pieces of the body are as many as its text fields, each holds an
/// `=`, and none is empty. A body without text field is the empty text.
pub proof fn lemma_form_pieces(fields: Seq<(Seq<char>, Field)>)
    requires
        plain_pairs(text_fields(fields)),
    ensures
        form_pieces(form_text(fields)).len() == text_fields(fields).len(),
        forall|i: int|
            0 <= i < text_fields(fields).len() ==> {
                &&& (#[trigger] form_pieces(form_text(fields))[i]) == pair_text(
                    text_fields(fields)[i],
                )
                &&& !lacks(form_pieces(form_text(fields))[i], '=')
            },
        text_fields(fields).len() == 0 ==> form_text(fields) == Seq::<char>::empty(),
{
    let pairs = text_fields(fields);
    lemma_pieces_of_pairs(pairs);
    lemma_joined_len(pairs);
    assert forall|i: int| 0 <= i < pairs.len() implies {
        &&& (#[trigger] form_pieces(form_text(fields))[i]) == pair_text(pairs[i])
        &&& !lacks(form_pieces(form_text(fields))[i], '=')
    } by {
        lemma_pair(pairs[i]);
    }
}

} // verus!
