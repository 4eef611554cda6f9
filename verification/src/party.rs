use crate::party_member::PartyMember;
use vstd::prelude::*;

verus! {

/// The largest number of members that a party may have. It keeps every
/// sum over a party within the range of a score.
pub const MAX_PARTY_SIZE: usize = 0xFFFF_FFFF;

/// A party, or faction in a conflict.
#[derive(Debug)]
pub struct Party {
    /// The ID of the party. Must be unique in the conflict.
    pub id: usize,
    /// All members of the party, in ascending order of their IDs.
    pub members: Vec<PartyMember>,
    /// Indicates if the party is allowed to retreat from the encounter.
    pub can_retreat: bool,
    /// Indicates if the party has retreated from the encounter.
    pub retreated: bool,
}

/// A participant.
#[derive(Clone, Copy, Debug, PartialEq, Eq)]
pub struct Participant {
    /// The ID of the targeted party.
    pub party_id: usize,
    /// The ID of the targeted member in the party.
    pub member_id: usize,
}

/// A party as a mathematical value.
pub struct PartyView {
    /// The ID of the party.
    pub id: usize,
    /// All members of the party, in order.
    pub members: Seq<PartyMember>,
    /// Whether the party is allowed to retreat.
    pub can_retreat: bool,
    /// Whether the party has retreated.
    pub retreated: bool,
}

impl View for Party {
    type V = PartyView;

    open spec fn view(&self) -> PartyView {
        PartyView {
            id: self.id,
            members: self.members@,
            can_retreat: self.can_retreat,
            retreated: self.retreated,
        }
    }
}

/// The sum of the health of the given members.
pub open spec fn total_health(members: Seq<PartyMember>) -> nat
    decreases members.len(),
{
    if members.len() == 0 {
        0
    } else {
        total_health(members.drop_last()) + members.last().health as nat
    }
}

/// The sum of the damage that the given members have taken.
pub open spec fn total_damage_taken(members: Seq<PartyMember>) -> nat
    decreases members.len(),
{
    if members.len() == 0 {
        0
    } else {
        total_damage_taken(members.drop_last()) + members.last().damage_taken as nat
    }
}

/// The sums over a party are bounded by its size.
pub proof fn lemma_totals_bounded(members: Seq<PartyMember>)
    ensures
        total_health(members) <= members.len() * u32::MAX,
        total_damage_taken(members) <= members.len() * u64::MAX,
    decreases members.len(),
{
    if members.len() > 0 {
        lemma_totals_bounded(members.drop_last());
        assert((members.len() - 1) * u32::MAX + u32::MAX == members.len() * u32::MAX)
            by (nonlinear_arith);
        assert((members.len() - 1) * u64::MAX + u64::MAX == members.len() * u64::MAX)
            by (nonlinear_arith);
    }
}

impl PartyView {
    /// The party is valid: it is not too large, its members stand in
    /// strictly ascending order of their IDs, and each of them is valid.
    pub open spec fn wf(self) -> bool {
        &&& self.members.len() <= MAX_PARTY_SIZE
        &&& forall|i: int, j: int|
            0 <= i < j < self.members.len() ==> self.members[i].id < self.members[j].id
        &&& forall|i: int| 0 <= i < self.members.len() ==> (#[trigger] self.members[i]).wf()
    }

    /// A party is defeated when every member is dead.
    pub open spec fn defeated(self) -> bool {
        forall|i: int| 0 <= i < self.members.len() ==> (#[trigger] self.members[i]).dead()
    }

    /// Whether at least one member can still act.
    pub open spec fn able(self) -> bool {
        exists|i: int| 0 <= i < self.members.len() && (#[trigger] self.members[i]).eligible()
    }

    /// Whether the party is permitted to withdraw now: it is allowed to and
    /// has not done so yet.
    pub open spec fn may_retreat(self) -> bool {
        self.can_retreat && !self.retreated
    }

    /// The party after its retreat: no member takes part any longer.
    pub open spec fn retreat(self) -> PartyView {
        PartyView {
            id: self.id,
            members: Seq::new(self.members.len(), |i: int| self.members[i].withdrawn()),
            can_retreat: self.can_retreat,
            retreated: true,
        }
    }

    /// The position of the first member with the given ID, or the size of
    /// the party if there is none.
    pub open spec fn position(self, id: usize) -> int
        decreases self.members.len(),
    {
        if self.members.len() == 0 {
            0
        } else if self.members[0].id == id {
            0
        } else {
            1 + (PartyView { members: self.members.drop_first(), ..self }).position(id)
        }
    }

    /// The party with the first member of the given member's ID replaced by
    /// it. Without such a member the party stays as it is.
    pub open spec fn replace_member(self, member: PartyMember) -> PartyView {
        let at = self.position(member.id);
        if at < self.members.len() {
            PartyView { members: self.members.update(at, member), ..self }
        } else {
            self
        }
    }

    /// `position` finds the first member with the ID, and nothing else.
    pub proof fn lemma_position(self, id: usize)
        ensures
            0 <= self.position(id) <= self.members.len(),
            self.position(id) < self.members.len() ==> self.members[self.position(id)].id == id,
            forall|i: int| 0 <= i < self.position(id) ==> (#[trigger] self.members[i]).id != id,
        decreases self.members.len(),
    {
        if self.members.len() == 0 {
        } else if self.members[0].id == id {
        } else {
            let rest = PartyView { members: self.members.drop_first(), ..self };
            rest.lemma_position(id);
            assert forall|i: int| 0 <= i < self.position(id) implies (#[trigger] self.members[i]).id
                != id by {
                if i > 0 {
                    assert(self.members[i] == rest.members[i - 1]);
                }
            }
        }
    }

    /// In a valid party the position of a member's ID is the member's own.
    pub proof fn lemma_position_of_member(self, at: int)
        requires
            self.wf(),
            0 <= at < self.members.len(),
        ensures
            self.position(self.members[at].id) == at,
    {
        let id = self.members[at].id;
        self.lemma_position(id);
        let found = self.position(id);
        if found < at {
            assert(self.members[found].id < self.members[at].id);
        } else if found > at {
            assert(self.members[at].id != id);
        }
    }
}

impl Clone for Party {
    fn clone(&self) -> (copy: Self)
        ensures
            copy@ == self@,
    {
        let members = self.members.clone();
        proof {
            assert(members@ =~= self.members@);
        }
        Party { id: self.id, members, can_retreat: self.can_retreat, retreated: self.retreated }
    }
}

impl Party {
    /// Makes every member unable to act in the encounter.
    pub fn retreat(&mut self)
        ensures
            final(self)@ == old(self)@.retreat(),
    {
        self.retreated = true;
        let n = self.members.len();
        let mut i: usize = 0;
        while i < n
            invariant
                i <= n,
                n == self.members.len(),
                self.members.len() == old(self).members.len(),
                self.id == old(self).id,
                self.can_retreat == old(self).can_retreat,
                self.retreated,
                forall|j: int| 0 <= j < i ==> self.members[j] == old(self).members[j].withdrawn(),
                forall|j: int| i <= j < n ==> self.members[j] == old(self).members[j],
            decreases n - i,
        {
            let mut member = self.members[i];
            member.can_act = false;
            self.members.set(i, member);
            i = i + 1;
        }
        proof {
            assert(self.members@ =~= old(self)@.retreat().members);
        }
    }

    /// Returns `true` if the party is defeated.
    ///
    /// ## Defeat
    /// A party is considered defeated if all party members are deceased.
    pub fn is_defeated(&self) -> (defeated: bool)
        ensures
            defeated == self@.defeated(),
    {
        let n = self.members.len();
        let mut i: usize = 0;
        while i < n
            invariant
                i <= n,
                n == self.members.len(),
                forall|j: int| 0 <= j < i ==> (#[trigger] self.members[j]).dead(),
            decreases n - i,
        {
            if !self.members[i].is_dead() {
                assert(!self@.members[i as int].dead());
                return false;
            }
            i = i + 1;
        }
        true
    }

    /// Returns `true` if the party has retreated from the encounter.
    pub fn has_retreated(&self) -> (retreated: bool)
        ensures
            retreated == self@.retreated,
    {
        self.retreated
    }

    /// Returns `true` if at least one party member can still act.
    pub fn can_act(&self) -> (able: bool)
        ensures
            able == self@.able(),
    {
        let n = self.members.len();
        let mut i: usize = 0;
        while i < n
            invariant
                i <= n,
                n == self.members.len(),
                forall|j: int| 0 <= j < i ==> !(#[trigger] self.members[j]).eligible(),
            decreases n - i,
        {
            if self.members[i].can_act() {
                assert(self@.members[i as int].eligible());
                return true;
            }
            i = i + 1;
        }
        false
    }

    /// Replaces the member identified by the party member's ID with the
    /// new value provided here.
    pub fn replace_member(&mut self, member: PartyMember)
        ensures
            final(self)@ == old(self)@.replace_member(member),
    {
        let n = self.members.len();
        let mut i: usize = 0;
        while i < n
            invariant
                i <= n,
                n == self.members.len(),
                *self == *old(self),
                forall|j: int| 0 <= j < i ==> (#[trigger] self.members[j]).id != member.id,
            decreases n - i,
        {
            if self.members[i].id == member.id {
                proof {
                    self@.lemma_position(member.id);
                    let at = self@.position(member.id);
                    if at > i {
                        assert(self@.members[i as int].id != member.id);
                    }
                    if at < i {
                        assert(self@.members[at].id != member.id);
                    }
                }
                self.members.set(i, member);
                return ;
            }
            i = i + 1;
        }
        proof {
            self@.lemma_position(member.id);
            let at = self@.position(member.id);
            if at < n {
                assert(self@.members[at].id != member.id);
            }
        }
    }

    /// Returns the size of the party.
    pub fn len(&self) -> (size: usize)
        ensures
            size == self@.members.len(),
    {
        self.members.len()
    }

    /// Tests whether the party is valid.
    pub fn is_valid(&self) -> (valid: bool)
        ensures
            valid == self@.wf(),
    {
        let n = self.members.len();
        if n > MAX_PARTY_SIZE {
            return false;
        }
        let mut i: usize = 0;
        while i < n
            invariant
                i <= n,
                n == self.members.len(),
                n <= MAX_PARTY_SIZE,
                forall|j: int| 0 <= j < i ==> (#[trigger] self.members[j]).wf(),
                forall|j: int| 0 < j < i ==> self.members[j - 1].id < (#[trigger] self.members[j]).id,
            decreases n - i,
        {
            let member = self.members[i];
            let reach: u128 = member.damage_taken as u128 + (member.health as u128) * 0xFFFF_FFFF;
            if reach > 0xFFFF_FFFF_FFFF_FFFF {
                assert(!self@.members[i as int].wf());
                return false;
            }
            if i > 0 && self.members[i - 1].id >= member.id {
                assert(!(self@.members[i - 1].id < self@.members[i as int].id));
                return false;
            }
            i = i + 1;
        }
        proof {
            lemma_neighbours_ascend(self@.members);
        }
        true
    }
}

/// Members whose IDs ascend from each one to the next ascend throughout.
proof fn lemma_neighbours_ascend(members: Seq<PartyMember>)
    requires
        forall|j: int| 0 < j < members.len() ==> members[j - 1].id < (#[trigger] members[j]).id,
    ensures
        forall|i: int, j: int| 0 <= i < j < members.len() ==> members[i].id < members[j].id,
    decreases members.len(),
{
    if members.len() > 1 {
        let front = members.drop_last();
        assert forall|j: int| 0 < j < front.len() implies front[j - 1].id < (#[trigger] front[j]).id by {
            assert(front[j] == members[j]);
            assert(front[j - 1] == members[j - 1]);
        }
        lemma_neighbours_ascend(front);
        let last = members.len() - 1;
        assert(members[last - 1].id < members[last].id);
        assert forall|i: int, j: int| 0 <= i < j < members.len() implies members[i].id
            < members[j].id by {
            if j < last {
                assert(front[i] == members[i]);
                assert(front[j] == members[j]);
            } else if i < last - 1 {
                assert(front[i] == members[i]);
                assert(front[last - 1] == members[last - 1]);
                assert(front[i].id < front[last - 1].id);
            }
        }
    }
}

} // verus!
