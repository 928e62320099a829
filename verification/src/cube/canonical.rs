//! Every sequence of twists has a canonical form: a sequence that does the
//! same to every cube, is no longer, and in which each twist may follow the
//! one before it. So nothing is lost where a search follows canonical
//! sequences only.
use super::alg_laws::{lemma_applied_push, lemma_merged_last_effect};
use super::algs::{is_canonical, merged_at, Turn, TurnDir, Twist};
use super::laws::{
    lemma_applied_wf, lemma_identity_twist, lemma_opposite_faces_commute,
    lemma_same_face_combines, lemma_twisted_wf,
};
use super::CubeState;
use vstd::prelude::*;

verus! {

/// Whether every twist of `path` is in `moveset`.
pub open spec fn is_sequence_of(moveset: Seq<Twist>, path: Seq<Twist>) -> bool {
    forall|i: int| 0 <= i < path.len() ==> moveset.contains(#[trigger] path[i])
}

/// Whether no twist of `moveset` is a twist by no turn, and two twists of
/// one face that `moveset` holds amount to no turn or to a twist that it
/// holds.
pub open spec fn merges_within(moveset: Seq<Twist>) -> bool {
    &&& forall|t: Twist| #[trigger] moveset.contains(t) ==> t.dir != TurnDir::Identity
    &&& forall|a: Twist, b: Twist|
        #[trigger] moveset.contains(a) && #[trigger] moveset.contains(b) && a.turn == b.turn
            ==> a.dir.plus(b.dir) == TurnDir::Identity || moveset.contains(
            Twist { turn: a.turn, dir: a.dir.plus(b.dir) },
        )
}

/// The canonical sequence `acc` with the twist `t` taken in. A twist of the
/// face turned last is merged into the last twist. After a twist of the
/// opposite face, a twist of the face turned before that is merged into the
/// twist before last, and another twist of a primary face is put before the
/// last twist. Any other twist is appended.
pub open spec fn put(acc: Seq<Twist>, t: Twist) -> Seq<Twist> {
    let n = acc.len() as int;
    if n >= 1 && acc[n - 1].turn == t.turn {
        merged_at(acc, n - 1, t)
    } else if n >= 1 && acc[n - 1].turn == t.turn.opposite() {
        if n >= 2 && acc[n - 2].turn == t.turn {
            merged_at(acc, n - 2, t)
        } else if t.turn.is_primary() {
            acc.take(n - 1).push(t).push(acc[n - 1])
        } else {
            acc.push(t)
        }
    } else {
        acc.push(t)
    }
}

/// The canonical form of `path`: its twists taken in one by one.
pub open spec fn canonical_form(path: Seq<Twist>) -> Seq<Twist>
    decreases path.len(),
{
    if path.len() == 0 {
        Seq::empty()
    } else {
        put(canonical_form(path.drop_last()), path.last())
    }
}

/// The first twists of a canonical sequence are a canonical sequence.
proof fn lemma_canonical_take(acc: Seq<Twist>, n: int)
    requires
        is_canonical(acc),
        0 <= n <= acc.len(),
    ensures
        is_canonical(acc.take(n)),
{
    let part = acc.take(n);
    assert forall|i: int, j: int|
        #![trigger part[i], part[j]]
        0 <= i && j == i + 1 && j < part.len() implies Turn::may_follow(
        Some(part[i].turn),
        part[j].turn,
    ) by {
        assert(part[i] == acc[i] && part[j] == acc[j]);
    }
}

/// A canonical sequence with a twist appended that may follow its last is
/// canonical.
proof fn lemma_canonical_push(acc: Seq<Twist>, t: Twist)
    requires
        is_canonical(acc),
        acc.len() > 0 ==> Turn::may_follow(Some(acc[acc.len() - 1].turn), t.turn),
    ensures
        is_canonical(acc.push(t)),
{
    let out = acc.push(t);
    assert forall|i: int, j: int|
        #![trigger out[i], out[j]]
        0 <= i && j == i + 1 && j < out.len() implies Turn::may_follow(
        Some(out[i].turn),
        out[j].turn,
    ) by {
        if j < acc.len() {
            assert(out[i] == acc[i] && out[j] == acc[j]);
        }
    }
}

/// Twists of the same faces as those of a canonical sequence are a canonical
/// sequence.
proof fn lemma_canonical_same_faces(acc: Seq<Twist>, out: Seq<Twist>)
    requires
        is_canonical(acc),
        out.len() == acc.len(),
        forall|i: int| 0 <= i < out.len() ==> (#[trigger] out[i]).turn == acc[i].turn,
    ensures
        is_canonical(out),
{
    assert forall|i: int, j: int|
        #![trigger out[i], out[j]]
        0 <= i && j == i + 1 && j < out.len() implies Turn::may_follow(
        Some(out[i].turn),
        out[j].turn,
    ) by {
        assert(Turn::may_follow(Some(acc[i].turn), acc[j].turn));
    }
}

/// Taking a twist in keeps a canonical sequence canonical.
pub proof fn lemma_put_canonical(acc: Seq<Twist>, t: Twist)
    requires
        is_canonical(acc),
    ensures
        is_canonical(put(acc, t)),
{
    let n = acc.len() as int;
    let out = put(acc, t);
    if n >= 1 && acc[n - 1].turn == t.turn {
        if acc[n - 1].dir.plus(t.dir) == TurnDir::Identity {
            assert(out =~= acc.take(n - 1));
            lemma_canonical_take(acc, n - 1);
        } else {
            lemma_canonical_same_faces(acc, out);
        }
    } else if n >= 1 && acc[n - 1].turn == t.turn.opposite() {
        if n >= 2 && acc[n - 2].turn == t.turn {
            assert(Turn::may_follow(Some(acc[n - 2].turn), acc[n - 1].turn));
            if acc[n - 2].dir.plus(t.dir) == TurnDir::Identity {
                let front = acc.take(n - 2);
                assert(out =~= front.push(acc[n - 1]));
                lemma_canonical_take(acc, n - 2);
                if n >= 3 {
                    assert(front[n - 3] == acc[n - 3]);
                    assert(Turn::may_follow(Some(acc[n - 3].turn), acc[n - 2].turn));
                }
                lemma_canonical_push(front, acc[n - 1]);
            } else {
                lemma_canonical_same_faces(acc, out);
            }
        } else if t.turn.is_primary() {
            let front = acc.take(n - 1);
            lemma_canonical_take(acc, n - 1);
            if n >= 2 {
                assert(front[n - 2] == acc[n - 2]);
                assert(Turn::may_follow(Some(acc[n - 2].turn), acc[n - 1].turn));
            }
            lemma_canonical_push(front, t);
            assert(front.push(t)[n - 1] == t);
            lemma_canonical_push(front.push(t), acc[n - 1]);
        } else {
            lemma_canonical_push(acc, t);
        }
    } else {
        lemma_canonical_push(acc, t);
    }
}

/// Taking a twist of the move set in keeps a sequence within the move set.
pub proof fn lemma_put_members(moveset: Seq<Twist>, acc: Seq<Twist>, t: Twist)
    requires
        is_sequence_of(moveset, acc),
        moveset.contains(t),
        merges_within(moveset),
    ensures
        is_sequence_of(moveset, put(acc, t)),
{
    let n = acc.len() as int;
    let out = put(acc, t);
    assert forall|i: int| 0 <= i < out.len() implies moveset.contains(#[trigger] out[i]) by {
        if n >= 1 && acc[n - 1].turn == t.turn {
            assert(moveset.contains(acc[n - 1]));
            if acc[n - 1].dir.plus(t.dir) == TurnDir::Identity {
                assert(out[i] == acc[i]);
            } else if i < n - 1 {
                assert(out[i] == acc[i]);
            }
        } else if n >= 1 && acc[n - 1].turn == t.turn.opposite() {
            if n >= 2 && acc[n - 2].turn == t.turn {
                assert(moveset.contains(acc[n - 2]));
                if acc[n - 2].dir.plus(t.dir) == TurnDir::Identity {
                    if i < n - 2 {
                        assert(out[i] == acc[i]);
                    } else {
                        assert(out[i] == acc[i + 1]);
                    }
                } else if i != n - 2 {
                    assert(out[i] == acc[i]);
                }
            } else if t.turn.is_primary() {
                if i < n - 1 {
                    assert(out[i] == acc[i]);
                } else if i == n {
                    assert(out[i] == acc[n - 1]);
                }
            } else if i < n {
                assert(out[i] == acc[i]);
            }
        } else if i < n {
            assert(out[i] == acc[i]);
        }
    }
}

/// Taking a twist in makes a sequence longer by one twist at most.
pub proof fn lemma_put_len(acc: Seq<Twist>, t: Twist)
    ensures
        put(acc, t).len() <= acc.len() + 1,
{
}

/// Taking a twist in does to a cube what the sequence and then the twist
/// do.
#[verifier::rlimit(50)]
pub proof fn lemma_put_effect(c: CubeState, acc: Seq<Twist>, t: Twist)
    requires
        c.wf(),
    ensures
        c.applied(put(acc, t)) == c.applied(acc).twisted(t),
{
    let n = acc.len() as int;
    if n >= 1 && acc[n - 1].turn == t.turn {
        let front = acc.drop_last();
        assert(acc =~= front.push(acc[n - 1]));
        lemma_merged_last_effect(c, front, acc[n - 1], t);
        lemma_applied_push(c, front, acc[n - 1]);
    } else if n >= 1 && acc[n - 1].turn == t.turn.opposite() {
        let last = acc[n - 1];
        if n >= 2 && acc[n - 2].turn == t.turn {
            let before = acc[n - 2];
            let front = acc.take(n - 2);
            let base = c.applied(front);
            let dir = before.dir.plus(t.dir);
            lemma_applied_wf(c, front);
            assert(acc =~= front.push(before).push(last));
            lemma_applied_push(c, front.push(before), last);
            lemma_applied_push(c, front, before);
            lemma_twisted_wf(base, before);
            lemma_opposite_faces_commute(base.twisted(before), t, last);
            lemma_same_face_combines(base, before, t);
            if dir == TurnDir::Identity {
                assert(acc.remove(n - 2) =~= front.push(last));
                lemma_applied_push(c, front, last);
                lemma_identity_twist(base, t.turn);
            } else {
                let sum = Twist { turn: t.turn, dir };
                assert(acc.update(n - 2, sum) =~= front.push(sum).push(last));
                lemma_applied_push(c, front.push(sum), last);
                lemma_applied_push(c, front, sum);
            }
        } else if t.turn.is_primary() {
            let front = acc.take(n - 1);
            let base = c.applied(front);
            lemma_applied_wf(c, front);
            assert(acc =~= front.push(last));
            lemma_applied_push(c, front, last);
            lemma_applied_push(c, front.push(t), last);
            lemma_applied_push(c, front, t);
            lemma_opposite_faces_commute(base, t, last);
        } else {
            lemma_applied_push(c, acc, t);
        }
    } else {
        lemma_applied_push(c, acc, t);
    }
}

/// A sequence of twists of a move set has a canonical form that is a
/// sequence of twists of that move set, is canonical and no longer, and does
/// to every cube what the sequence does.
pub proof fn lemma_canonical_form(moveset: Seq<Twist>, path: Seq<Twist>, c: CubeState)
    requires
        is_sequence_of(moveset, path),
        merges_within(moveset),
        c.wf(),
    ensures
        is_sequence_of(moveset, canonical_form(path)),
        is_canonical(canonical_form(path)),
        canonical_form(path).len() <= path.len(),
        c.applied(canonical_form(path)) == c.applied(path),
    decreases path.len(),
{
    if path.len() > 0 {
        let front = path.drop_last();
        assert forall|i: int| 0 <= i < front.len() implies moveset.contains(
            #[trigger] front[i],
        ) by {
            assert(front[i] == path[i]);
        }
        lemma_canonical_form(moveset, front, c);
        let acc = canonical_form(front);
        assert(moveset.contains(path[path.len() - 1]));
        lemma_put_canonical(acc, path.last());
        lemma_put_members(moveset, acc, path.last());
        lemma_put_len(acc, path.last());
        lemma_put_effect(c, acc, path.last());
    }
}

/// Two of the eighteen twists that turn one face amount to no turn or to
/// one of the eighteen.
pub proof fn lemma_all_twists_merge_within()
    ensures
        merges_within(Twist::all()),
{
    let m = Twist::all();
    assert forall|t: Twist| #[trigger] m.contains(t) implies t.dir != TurnDir::Identity by {
        let k = choose|k: int| 0 <= k < m.len() && m[k] == t;
    }
    assert forall|a: Twist, b: Twist|
        #[trigger] m.contains(a) && #[trigger] m.contains(b) && a.turn == b.turn implies a.dir.plus(
        b.dir,
    ) == TurnDir::Identity || m.contains(Twist { turn: a.turn, dir: a.dir.plus(b.dir) }) by {
        let sum = Twist { turn: a.turn, dir: a.dir.plus(b.dir) };
        if sum.dir != TurnDir::Identity {
            let base: int = match a.turn {
                Turn::U => 0,
                Turn::D => 3,
                Turn::F => 6,
                Turn::B => 9,
                Turn::L => 12,
                Turn::R => 15,
            };
            assert(m[base + sum.dir.quarters() - 1] == sum);
        }
    }
}

} // verus!
