use vstd::prelude::*;
use vstd::string::StringExecFns;
use crate::text::str_eq;

verus! {

/// The session-scoped interning table that converts block-local names into
/// one stable global id space: the first time a name is seen it receives the
/// next sequential id, starting at 0, and it keeps that id for the life of
/// the session. Its mathematical content is the sequence of interned names in
/// id order: a name's global id is its index.
pub struct GlobalMapping {
    names: Vec<String>,
}

impl View for GlobalMapping {
    type V = Seq<Seq<char>>;

    closed spec fn view(&self) -> Seq<Seq<char>> {
        Seq::new(self.names@.len(), |i: int| self.names@[i]@)
    }
}

impl GlobalMapping {
    /// No two interned names are equal, so ids never collide; and every id
    /// fits in 16 bits.
    pub open spec fn wf(&self) -> bool {
        &&& forall|i: int, j: int| 0 <= i < j < self@.len() ==> self@[i] != self@[j]
        &&& self@.len() <= 65535
    }

    /// A fresh table: no name has been seen, the next id is 0.
    pub fn new() -> (r: GlobalMapping)
        ensures
            r@ == Seq::<Seq<char>>::empty(),
            r.wf(),
    {
        let r = GlobalMapping { names: Vec::new() };
        proof {
            assert(r@ =~= Seq::<Seq<char>>::empty());
        }
        r
    }

    /// How many distinct names this session has interned so far; also the
    /// next id to be assigned.
    pub fn len(&self) -> (n: usize)
        ensures
            n == self@.len(),
    {
        self.names.len()
    }

    /// Returns the name's global id, interning the name first if this session
    /// has not seen it: a seen name leaves the table unchanged and yields its
    /// old id, an unseen one is appended and yields the next sequential id.
    pub fn get_or_insert_id(&mut self, name: &str) -> (id: u16)
        requires
            old(self).wf(),
            old(self)@.contains(name@) || old(self)@.len() < 65535,
        ensures
            final(self).wf(),
            id < final(self)@.len(),
            final(self)@[id as int] == name@,
            old(self)@.is_prefix_of(final(self)@),
            old(self)@.contains(name@) ==> final(self)@ == old(self)@,
            !old(self)@.contains(name@) ==> final(self)@ == old(self)@.push(name@) && id as int
                == old(self)@.len(),
    {
        let n = self.names.len();
        let mut i: usize = 0;
        while i < n
            invariant
                i <= n,
                n == self@.len(),
                self.wf(),
                forall|j: int| 0 <= j < i ==> self@[j] != name@,
            decreases n - i,
        {
            if str_eq(self.names[i].as_str(), name) {
                proof {
                    assert(self@[i as int] == name@);
                    assert(self@.contains(name@));
                }
                return i as u16;
            }
            i = i + 1;
        }
        proof {
            assert(forall|j: int| 0 <= j < self@.len() ==> self@[j] != name@);
            assert(!self@.contains(name@));
        }
        let id = n as u16;
        self.names.push(String::from_str(name));
        proof {
            assert(self@ =~= old(self)@.push(name@));
        }
        id
    }
}

/// Law: interning keeps the global id space dense and collision-free. Let a
/// call of `get_or_insert_id` take a well-formed table `m1` of `k` names to
/// `m2`, answering `id` for `name`, as its contract promises. Then every
/// earlier id keeps its name, all names stay pairwise distinct, `id` is the
/// one id naming `name`, and the table stays at `k` names for a seen name and
/// grows to `k + 1` for an unseen one, which receives id `k`, the next
/// sequential unused id — so the ids in use are always exactly the positions
/// below the table's length.
pub proof fn lemma_interning_step(m1: Seq<Seq<char>>, m2: Seq<Seq<char>>, name: Seq<char>, id: u16)
    requires
        forall|p: int, q: int| 0 <= p < q < m2.len() ==> m2[p] != m2[q],
        id < m2.len(),
        m2[id as int] == name,
        m1.is_prefix_of(m2),
        m1.contains(name) ==> m2 == m1,
        !m1.contains(name) ==> m2 == m1.push(name) && id as int == m1.len(),
    ensures
        forall|i: int| 0 <= i < m1.len() ==> m2[i] == m1[i],
        m2.len() == if m1.contains(name) {
            m1.len()
        } else {
            m1.len() + 1
        },
        !m1.contains(name) ==> id as int == m1.len(),
        forall|i: int| 0 <= i < m2.len() && m2[i] == name ==> i == id,
{
    assert(m1 =~= m2.subrange(0, m1.len() as int));
    assert forall|i: int| 0 <= i < m2.len() && m2[i] == name implies i == id by {
        if i < id {
            assert(m2[i] != m2[id as int]);
        } else if id < i {
            assert(m2[id as int] != m2[i]);
        }
    }
}

/// Law: global ids are stable and collision-free. However the table grows,
/// a name interned in an earlier state keeps its id in every later state, and
/// two positions of a well-formed table hold the same name only if they are
/// the same id.
pub proof fn lemma_global_id_stable(m1: Seq<Seq<char>>, m2: Seq<Seq<char>>, i: int, j: int)
    requires
        forall|p: int, q: int| 0 <= p < q < m2.len() ==> m2[p] != m2[q],
        m1.is_prefix_of(m2),
        0 <= i < m1.len(),
        0 <= j < m2.len(),
        m1[i] == m2[j],
    ensures
        i == j,
{
    assert(m2[i] == m1[i]);
}

} // verus!
