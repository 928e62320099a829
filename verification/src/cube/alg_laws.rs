//! What holds of notation and of simplifying for every algorithm: reading
//! undoes writing, simplifying is idempotent, and a simplified algorithm
//! does to every cube what the algorithm did.
use super::algs::{absorb, formatted, merged_at, parse_step, parsed, simplified, TurnDir, Twist};
use super::laws::{
    lemma_applied_wf, lemma_identity_twist, lemma_opposite_faces_commute,
    lemma_same_face_combines,
};
use super::CubeState;
use vstd::prelude::*;

verus! {

/// Reading a text with one more character is one more step of reading.
pub proof fn lemma_parsed_push(text: Seq<char>, c: char)
    ensures
        parsed(text.push(c)) == parse_step(parsed(text), c),
{
    assert(text.push(c).drop_last() =~= text);
}

/// Reading a text that goes on with one twist in notation yields what the
/// text gave and then that twist.
pub proof fn lemma_parsed_notation(text: Seq<char>, t: Twist)
    ensures
        parsed(text + t.notation()) == parsed(text).push(t),
{
    let letter = t.turn.letter();
    let begun = text.push(letter);
    lemma_parsed_push(text, letter);
    assert(parsed(begun) == parsed(text).push(Twist { turn: t.turn, dir: TurnDir::One }));
    if t.dir == TurnDir::One {
        assert(text + t.notation() =~= begun);
    } else {
        let mark = t.dir.suffix()[0];
        assert(text + t.notation() =~= begun.push(mark));
        lemma_parsed_push(begun, mark);
        assert(parsed(begun.push(mark)) =~= parsed(text).push(t));
    }
}

/// Reading what was written gives back the algorithm, whatever its twists.
pub proof fn lemma_parse_format_round_trip(alg: Seq<Twist>)
    ensures
        parsed(formatted(alg)) == alg,
    decreases alg.len(),
{
    if alg.len() == 0 {
    } else if alg.len() == 1 {
        lemma_parsed_notation(Seq::empty(), alg[0]);
        assert(Seq::<char>::empty() + alg[0].notation() =~= alg[0].notation());
        assert(alg =~= Seq::<Twist>::empty().push(alg[0]));
    } else {
        let front = alg.drop_last();
        lemma_parse_format_round_trip(front);
        lemma_parsed_push(formatted(front), ' ');
        assert(formatted(front) + seq![' '] =~= formatted(front).push(' '));
        lemma_parsed_notation(formatted(front).push(' '), alg.last());
        assert(alg =~= front.push(alg.last()));
    }
}

/// A text written from an algorithm of `n` twists reads as exactly `n`
/// twists, so the reader of a fixed number of twists accepts it for that
/// number, and it yields the twists that the reader of any number yields.
pub proof fn lemma_written_text_has_its_length(alg: Seq<Twist>)
    ensures
        parsed(formatted(alg)).len() == alg.len(),
        parsed(formatted(alg)) == alg,
{
    lemma_parse_format_round_trip(alg);
}

/// Nothing is left to simplify: no twist by no turn, no two twists of one
/// face next to each other, and none kept apart only by a twist of the
/// opposite face.
pub open spec fn is_reduced(alg: Seq<Twist>) -> bool {
    &&& forall|i: int| 0 <= i < alg.len() ==> (#[trigger] alg[i]).dir != TurnDir::Identity
    &&& forall|i: int, j: int|
        #![trigger alg[i], alg[j]]
        0 <= i && j == i + 1 && j < alg.len() ==> alg[i].turn != alg[j].turn
    &&& forall|i: int, j: int, k: int|
        #![trigger alg[i], alg[j], alg[k]]
        0 <= i && j == i + 1 && k == i + 2 && k < alg.len() ==> !(alg[i].turn == alg[k].turn
            && alg[j].turn == alg[i].turn.opposite())
}

/// The first `n` twists of an algorithm leave nothing to simplify where the
/// algorithm leaves nothing.
proof fn lemma_reduced_take(alg: Seq<Twist>, n: int)
    requires
        is_reduced(alg),
        0 <= n <= alg.len(),
    ensures
        is_reduced(alg.take(n)),
{
    let out = alg.take(n);
    assert forall|i: int, j: int| 0 <= i && j == i + 1 && j < out.len() implies (
    #[trigger] out[i]).turn != (#[trigger] out[j]).turn by {
        assert(alg[i].turn != alg[j].turn);
    }
    assert forall|i: int, j: int, k: int|
        0 <= i && j == i + 1 && k == i + 2 && k < out.len() implies !((#[trigger] out[i]).turn
            == (#[trigger] out[k]).turn && (#[trigger] out[j]).turn
            == out[i].turn.opposite()) by {
        assert(!(alg[i].turn == alg[k].turn && alg[j].turn == alg[i].turn.opposite()));
    }
    assert forall|i: int| 0 <= i < out.len() implies (#[trigger] out[i]).dir
        != TurnDir::Identity by {
        assert(alg[i].dir != TurnDir::Identity);
    }
}

/// Twists of the same faces, none by no turn, leave nothing to simplify
/// where the algorithm leaves nothing.
proof fn lemma_reduced_same_faces(alg: Seq<Twist>, out: Seq<Twist>)
    requires
        is_reduced(alg),
        out.len() == alg.len(),
        forall|i: int|
            0 <= i < out.len() ==> (#[trigger] out[i]).turn == alg[i].turn && out[i].dir
                != TurnDir::Identity,
    ensures
        is_reduced(out),
{
    assert forall|i: int, j: int| 0 <= i && j == i + 1 && j < out.len() implies (
    #[trigger] out[i]).turn != (#[trigger] out[j]).turn by {
        assert(alg[i].turn != alg[j].turn);
    }
    assert forall|i: int, j: int, k: int|
        0 <= i && j == i + 1 && k == i + 2 && k < out.len() implies !((#[trigger] out[i]).turn
            == (#[trigger] out[k]).turn && (#[trigger] out[j]).turn
            == out[i].turn.opposite()) by {
        assert(!(alg[i].turn == alg[k].turn && alg[j].turn == alg[i].turn.opposite()));
    }
}

/// Whether `t` can be appended to `alg` with nothing to simplify.
spec fn fits_after(alg: Seq<Twist>, t: Twist) -> bool {
    let n = alg.len() as int;
    &&& t.dir != TurnDir::Identity
    &&& n >= 1 ==> alg[n - 1].turn != t.turn
    &&& n >= 2 ==> !(alg[n - 2].turn == t.turn && alg[n - 1].turn == t.turn.opposite())
}

/// An algorithm with a twist appended that fits leaves nothing to simplify
/// where the algorithm leaves nothing.
proof fn lemma_reduced_push(alg: Seq<Twist>, t: Twist)
    requires
        is_reduced(alg),
        fits_after(alg, t),
    ensures
        is_reduced(alg.push(t)),
{
    let out = alg.push(t);
    let n = alg.len() as int;
    assert forall|i: int, j: int| 0 <= i && j == i + 1 && j < out.len() implies (
    #[trigger] out[i]).turn != (#[trigger] out[j]).turn by {
        if j < n {
            assert(alg[i].turn != alg[j].turn);
        }
    }
    assert forall|i: int, j: int, k: int|
        0 <= i && j == i + 1 && k == i + 2 && k < out.len() implies !((#[trigger] out[i]).turn
            == (#[trigger] out[k]).turn && (#[trigger] out[j]).turn
            == out[i].turn.opposite()) by {
        if k < n {
            assert(!(alg[i].turn == alg[k].turn && alg[j].turn == alg[i].turn.opposite()));
        }
    }
    assert forall|i: int| 0 <= i < out.len() implies (#[trigger] out[i]).dir
        != TurnDir::Identity by {
        if i < n {
            assert(alg[i].dir != TurnDir::Identity);
        }
    }
}

/// The last twist fits after what came before the twist before it, where
/// that twist was of the opposite face.
proof fn lemma_last_fits_without_its_neighbour(acc: Seq<Twist>)
    requires
        is_reduced(acc),
        acc.len() >= 2,
        acc[acc.len() - 1].turn == acc[acc.len() - 2].turn.opposite(),
    ensures
        fits_after(acc.take(acc.len() - 2), acc[acc.len() - 1]),
{
    let n = acc.len() as int;
    let front = acc.take(n - 2);
    assert(acc[n - 1].dir != TurnDir::Identity);
    if n >= 3 {
        assert(front[n - 3] == acc[n - 3]);
        assert(!(acc[n - 3].turn == acc[n - 1].turn && acc[n - 2].turn
            == acc[n - 3].turn.opposite()));
        assert(acc[n - 3].turn != acc[n - 2].turn);
    }
    if n >= 4 {
        assert(front[n - 4] == acc[n - 4]);
        assert(acc[n - 4].turn != acc[n - 3].turn);
    }
}

/// Taking in one more twist leaves nothing to simplify where nothing was.
pub proof fn lemma_absorb_reduced(acc: Seq<Twist>, t: Twist)
    requires
        is_reduced(acc),
    ensures
        is_reduced(absorb(acc, t)),
{
    let out = absorb(acc, t);
    let n = acc.len() as int;
    if t.dir == TurnDir::Identity {
    } else if n >= 1 && acc[n - 1].turn == t.turn {
        if acc[n - 1].dir.plus(t.dir) == TurnDir::Identity {
            assert(out =~= acc.take(n - 1));
            lemma_reduced_take(acc, n - 1);
        } else {
            lemma_reduced_same_faces(acc, out);
        }
    } else if n >= 2 && acc[n - 2].turn == t.turn && acc[n - 1].turn == t.turn.opposite() {
        if acc[n - 2].dir.plus(t.dir) == TurnDir::Identity {
            assert(out =~= acc.take(n - 2).push(acc[n - 1]));
            lemma_reduced_take(acc, n - 2);
            lemma_last_fits_without_its_neighbour(acc);
            lemma_reduced_push(acc.take(n - 2), acc[n - 1]);
        } else {
            lemma_reduced_same_faces(acc, out);
        }
    } else {
        lemma_reduced_push(acc, t);
    }
}

/// A simplified algorithm leaves nothing to simplify.
pub proof fn lemma_simplified_is_reduced(alg: Seq<Twist>)
    ensures
        is_reduced(simplified(alg)),
    decreases alg.len(),
{
    if alg.len() > 0 {
        lemma_simplified_is_reduced(alg.drop_last());
        lemma_absorb_reduced(simplified(alg.drop_last()), alg.last());
    }
}

/// Simplifying changes nothing where nothing is left to simplify.
pub proof fn lemma_simplified_keeps_reduced(alg: Seq<Twist>)
    requires
        is_reduced(alg),
    ensures
        simplified(alg) == alg,
    decreases alg.len(),
{
    if alg.len() > 0 {
        let front = alg.drop_last();
        let n = front.len() as int;
        assert forall|i: int, j: int| 0 <= i && j == i + 1 && j < front.len() implies (
        #[trigger] front[i]).turn != (#[trigger] front[j]).turn by {
            assert(alg[i].turn != alg[j].turn);
        }
        assert forall|i: int, j: int, k: int|
            0 <= i && j == i + 1 && k == i + 2 && k < front.len() implies !((
            #[trigger] front[i]).turn == (#[trigger] front[k]).turn && (
            #[trigger] front[j]).turn == front[i].turn.opposite()) by {
            assert(!(alg[i].turn == alg[k].turn && alg[j].turn == alg[i].turn.opposite()));
        }
        assert forall|i: int| 0 <= i < front.len() implies (#[trigger] front[i]).dir
            != TurnDir::Identity by {
            assert(alg[i].dir != TurnDir::Identity);
        }
        lemma_simplified_keeps_reduced(front);
        assert(alg[n].dir != TurnDir::Identity);
        if n >= 1 {
            assert(alg[n - 1].turn != alg[n].turn);
        }
        if n >= 2 {
            assert(!(alg[n - 2].turn == alg[n].turn && alg[n - 1].turn
                == alg[n - 2].turn.opposite()));
        }
        assert(alg =~= front.push(alg.last()));
    }
}

/// Simplifying twice is simplifying once.
pub proof fn lemma_simplify_idempotent(alg: Seq<Twist>)
    ensures
        simplified(simplified(alg)) == simplified(alg),
{
    lemma_simplified_is_reduced(alg);
    lemma_simplified_keeps_reduced(simplified(alg));
}

/// Applying a sequence with one more twist is applying the sequence and then
/// the twist.
pub proof fn lemma_applied_push(c: CubeState, alg: Seq<Twist>, t: Twist)
    ensures
        c.applied(alg.push(t)) == c.applied(alg).twisted(t),
{
    assert(alg.push(t).drop_last() =~= alg);
}

/// Merging a twist into one of the same face does to a cube what the two
/// twists do one after the other.
pub proof fn lemma_merged_last_effect(c: CubeState, front: Seq<Twist>, last: Twist, t: Twist)
    requires
        c.wf(),
        last.turn == t.turn,
    ensures
        c.applied(merged_at(front.push(last), front.len() as int, t)) == c.applied(
            front,
        ).twisted(last).twisted(t),
{
    let acc = front.push(last);
    let at = front.len() as int;
    let dir = last.dir.plus(t.dir);
    lemma_applied_wf(c, front);
    lemma_same_face_combines(c.applied(front), last, t);
    if dir == TurnDir::Identity {
        assert(acc.remove(at) =~= front);
        lemma_identity_twist(c.applied(front), t.turn);
    } else {
        assert(acc.update(at, Twist { turn: t.turn, dir }) =~= front.push(
            Twist { turn: t.turn, dir },
        ));
        lemma_applied_push(c, front, Twist { turn: t.turn, dir });
    }
}

/// Taking in one more twist does to a cube what the twists so far and then
/// that twist do.
#[verifier::rlimit(50)]
pub proof fn lemma_absorb_effect(c: CubeState, acc: Seq<Twist>, t: Twist)
    requires
        c.wf(),
    ensures
        c.applied(absorb(acc, t)) == c.applied(acc).twisted(t),
{
    let n = acc.len() as int;
    if t.dir == TurnDir::Identity {
        lemma_identity_twist(c.applied(acc), t.turn);
    } else if n >= 1 && acc[n - 1].turn == t.turn {
        let front = acc.drop_last();
        assert(acc =~= front.push(acc[n - 1]));
        lemma_merged_last_effect(c, front, acc[n - 1], t);
        lemma_applied_push(c, front, acc[n - 1]);
    } else if n >= 2 && acc[n - 2].turn == t.turn && acc[n - 1].turn == t.turn.opposite() {
        let last = acc[n - 1];
        let before = acc[n - 2];
        let front = acc.take(n - 2);
        let base = c.applied(front);
        let dir = before.dir.plus(t.dir);
        lemma_applied_wf(c, front);
        assert(acc =~= front.push(before).push(last));
        lemma_applied_push(c, front.push(before), last);
        lemma_applied_push(c, front, before);
        // the last twist and the new one change places
        lemma_opposite_faces_commute(base.twisted(before), t, last);
        lemma_same_face_combines(base, before, t);
        if dir == TurnDir::Identity {
            assert(acc.remove(n - 2) =~= front.push(last));
            lemma_applied_push(c, front, last);
            lemma_identity_twist(base, t.turn);
        } else {
            let sum = Twist { turn: t.turn, dir };
            assert(acc.update(n - 2, sum) =~= front.push(sum).push(last));
            lemma_applied_push(c, front.push(sum), last);
            lemma_applied_push(c, front, sum);
        }
    } else {
        lemma_applied_push(c, acc, t);
    }
}

/// A simplified algorithm does to every cube what the algorithm does.
pub proof fn lemma_simplified_same_effect(c: CubeState, alg: Seq<Twist>)
    requires
        c.wf(),
    ensures
        c.applied(simplified(alg)) == c.applied(alg),
    decreases alg.len(),
{
    if alg.len() > 0 {
        lemma_simplified_same_effect(c, alg.drop_last());
        lemma_absorb_effect(c, simplified(alg.drop_last()), alg.last());
    }
}

} // verus!
