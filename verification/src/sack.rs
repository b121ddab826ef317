use vstd::prelude::*;

use vstd::multiset::Multiset;
use vstd::seq_lib::group_to_multiset_ensures;

use crate::piece::Piece;

use random::Source;

verus! {

broadcast use group_to_multiset_ensures;

#[verifier::external_type_specification]
#[verifier::external_body]
pub struct ExXorshift(random::Xorshift128Plus);

/// Relies on `random::default`: builds the crate's default Xorshift128+
/// source from a seed. Nothing is promised of the state (and its internal
/// seed check cannot fire: the two seed words it derives are never both
/// zero).
#[verifier::external_body]
fn new_source(seed: u64) -> random::Xorshift128Plus {
    random::default(seed)
}

/// Relies on `random::Source::read_u64`, documented uniform over the whole
/// `u64` range. Nothing is promised of the value.
#[verifier::external_body]
fn next_word(rng: &mut random::Xorshift128Plus) -> u64 {
    rng.read_u64()
}

/// The seven kinds, one each, in their canonical order.
pub open spec fn bag_seq() -> Seq<Piece> {
    seq![Piece::I, Piece::O, Piece::T, Piece::S, Piece::Z, Piece::J, Piece::L]
}

/// One of each of the seven kinds.
pub open spec fn full_bag() -> Multiset<Piece> {
    bag_seq().to_multiset()
}

/// The shuffled-bag piece source: a pending sequence of at most 7 pieces,
/// refilled with a full shuffled bag whenever it runs out.
pub struct PieceSack {
    pub pieces: Vec<Piece>,
    pub rng: random::Xorshift128Plus,
}

const SACK_SEED: u64 = 0x193a6754;

impl PieceSack {
    /// A fresh sack with nothing pending; the first draw triggers a refill.
    pub fn new() -> (r: PieceSack)
        ensures
            r.pieces@.len() == 0,
    {
        PieceSack { pieces: Vec::new(), rng: new_source(SACK_SEED) }
    }

    /// Refills the pending sequence with a shuffled permutation of all
    /// seven kinds: repeatedly removes a randomly chosen entry of the full
    /// ordered set and appends it.
    fn fill(&mut self)
        ensures
            final(self).pieces@.len() == 7,
            final(self).pieces@.to_multiset() == full_bag(),
    {
        let mut source: Vec<Piece> = Vec::new();
        source.push(Piece::I);
        source.push(Piece::O);
        source.push(Piece::T);
        source.push(Piece::S);
        source.push(Piece::Z);
        source.push(Piece::J);
        source.push(Piece::L);
        proof {
            assert(source@ =~= bag_seq());
        }
        let mut sack: Vec<Piece> = Vec::new();
        while source.len() != 0
            invariant
                sack@.len() + source@.len() == 7,
                sack@.to_multiset().add(source@.to_multiset()) == full_bag(),
            decreases source@.len(),
        {
            let len = source.len();
            let word = next_word(&mut self.rng);
            let index = (word % (len as u64)) as usize;
            proof {
                assert(index < len);
            }
            let ghost source0 = source@;
            let ghost sack0 = sack@;
            let p = source.remove(index);
            sack.push(p);
            proof {
                assert(source@.to_multiset() == source0.to_multiset().remove(p));
                assert(sack@.to_multiset() == sack0.to_multiset().insert(p));
                assert(source0.contains(p));
                assert(source0.to_multiset().count(p) >= 1);
                assert(sack@.to_multiset().add(source@.to_multiset()) =~= sack0.to_multiset().add(
                    source0.to_multiset(),
                ));
            }
        }
        proof {
            assert(source@ =~= Seq::<Piece>::empty());
            assert forall|k: Piece| source@.to_multiset().count(k) == 0 by {
                assert(!source@.contains(k));
            }
            assert(sack@.to_multiset() =~= sack@.to_multiset().add(source@.to_multiset()));
        }
        self.pieces = sack;
    }

    /// Pops and returns the first pending piece, refilling the sack with a
    /// full shuffled bag first when it is empty. Right after a refill, the
    /// drawn piece and the six left pending together are one of each kind.
    pub fn next(&mut self) -> (r: Piece)
        ensures
            old(self).pieces@.len() > 0 ==> r == old(self).pieces@[0] && final(self).pieces@
                == old(self).pieces@.subrange(1, old(self).pieces@.len() as int),
            old(self).pieces@.len() == 0 ==> final(self).pieces@.len() == 6
                && final(self).pieces@.to_multiset().insert(r) == full_bag(),
    {
        if self.pieces.len() == 0 {
            self.fill();
        }
        let ghost pending = self.pieces@;
        let p = self.pieces.remove(0);
        proof {
            assert(self.pieces@ =~= pending.subrange(1, pending.len() as int));
            if old(self).pieces@.len() == 0 {
                assert(self.pieces@.to_multiset() == pending.to_multiset().remove(p));
                assert(pending.contains(p));
                assert(pending.to_multiset().count(p) >= 1);
                assert(self.pieces@.to_multiset().insert(p) =~= pending.to_multiset());
            }
        }
        p
    }
}

/// Any seven pieces whose multiset is the full bag — as the seven draws of
/// one refill are — hold each of the seven kinds exactly once.
pub proof fn lemma_bag_each_kind_once(s: Seq<Piece>)
    requires
        s.to_multiset() == full_bag(),
    ensures
        s.len() == 7,
        forall|k: Piece| s.to_multiset().count(k) == 1,
{
    assert(bag_seq().to_multiset().len() == 7);
    assert(s.to_multiset().len() == s.len());
    assert forall|k: Piece| s.to_multiset().count(k) == 1 by {
        let b = bag_seq();
        assert(b.to_multiset() =~= Multiset::<Piece>::empty().insert(Piece::I).insert(
            Piece::O,
        ).insert(Piece::T).insert(Piece::S).insert(Piece::Z).insert(Piece::J).insert(Piece::L))
            by {
            assert(b =~= Seq::<Piece>::empty().push(Piece::I).push(Piece::O).push(Piece::T).push(
                Piece::S,
            ).push(Piece::Z).push(Piece::J).push(Piece::L));
            assert forall|q: Piece| !Seq::<Piece>::empty().contains(q) by {}
            assert forall|q: Piece| Seq::<Piece>::empty().to_multiset().count(q) == 0 by {
                assert(!Seq::<Piece>::empty().contains(q));
            }
        }
    }
}

} // verus!

verus! {

/// How one draw relates the pending pieces before and after it: a pending
/// head is popped; an empty sack is refilled with a full shuffled bag of
/// which the draw is one piece.
pub open spec fn sack_step(pend: Seq<Piece>, drawn: Piece, pend2: Seq<Piece>) -> bool {
    if pend.len() > 0 {
        drawn == pend[0] && pend2 == pend.drop_first()
    } else {
        pend2.len() == 6 && pend2.to_multiset().insert(drawn) == full_bag()
    }
}

/// How a sequence of draws, in order, relates the pending pieces before and
/// after them.
pub open spec fn sack_fold(pend: Seq<Piece>, draws: Seq<Piece>, pend2: Seq<Piece>) -> bool
    decreases draws.len(),
{
    if draws.len() == 0 {
        pend2 == pend
    } else {
        exists|mid: Seq<Piece>|
            #[trigger] sack_step(pend, draws[0], mid) && sack_fold(mid, draws.drop_first(), pend2)
    }
}

/// One more draw extends a draw sequence at its end.
pub proof fn lemma_sack_fold_snoc(
    p0: Seq<Piece>,
    draws: Seq<Piece>,
    p1: Seq<Piece>,
    d: Piece,
    p2: Seq<Piece>,
)
    requires
        sack_fold(p0, draws, p1),
        sack_step(p1, d, p2),
    ensures
        sack_fold(p0, draws.push(d), p2),
    decreases draws.len(),
{
    reveal_with_fuel(sack_fold, 3);
    if draws.len() == 0 {
        assert(draws.push(d)[0] == d);
        assert(draws.push(d).drop_first() =~= Seq::<Piece>::empty());
        assert(sack_step(p0, draws.push(d)[0], p2) && sack_fold(p2, draws.push(d).drop_first(), p2));
    } else {
        let mid = choose|mid: Seq<Piece>|
            #[trigger] sack_step(p0, draws[0], mid) && sack_fold(mid, draws.drop_first(), p1);
        lemma_sack_fold_snoc(mid, draws.drop_first(), p1, d, p2);
        assert(draws.push(d)[0] == draws[0]);
        assert(draws.push(d).drop_first() =~= draws.drop_first().push(d));
        assert(sack_step(p0, draws.push(d)[0], mid) && sack_fold(mid, draws.push(d).drop_first(), p2));
    }
}

} // verus!
