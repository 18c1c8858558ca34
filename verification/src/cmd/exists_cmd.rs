use vstd::prelude::*;
use crate::resp::{int_reply, uint_reply_string};
use crate::store::{RecordModel, Store};

verus! {

/// How many of the given keys are present, duplicates counted each time
/// they occur. Expiry is not consulted.
pub open spec fn count_present(m: Map<Seq<char>, RecordModel>, ks: Seq<Seq<char>>) -> nat
    decreases ks.len(),
{
    if ks.len() == 0 {
        0
    } else {
        count_present(m, ks.drop_last()) + if m.contains_key(ks.last()) {
            1nat
        } else {
            0nat
        }
    }
}

/// Reply of EXISTS: the count as an integer reply.
pub open spec fn exists_reply(m: Map<Seq<char>, RecordModel>, ks: Seq<Seq<char>>) -> Seq<char> {
    int_reply(count_present(m, ks) as int)
}

pub struct ExistsCommand {
    pub keys: Vec<String>,
}

impl ExistsCommand {
    pub fn new(keys: Vec<String>) -> (c: Self)
        ensures
            c.keys == keys,
    {
        ExistsCommand { keys }
    }

    pub fn execute(&self, store: &Store) -> (reply: String)
        requires
            store.wf(),
        ensures
            reply@ == exists_reply(store@, self.keys.deep_view()),
    {
        let ghost ks = self.keys.deep_view();
        let mut count: usize = 0;
        let n = self.keys.len();
        proof {
            assert(ks.take(0) =~= Seq::<Seq<char>>::empty());
        }
        for i in 0..n
            invariant
                store.wf(),
                n == self.keys@.len(),
                ks == self.keys.deep_view(),
                ks.len() == n,
                count <= i,
                count as nat == count_present(store@, ks.take(i as int)),
        {
            proof {
                assert(ks[i as int] == self.keys@[i as int]@);
                assert(ks.take(i + 1).drop_last() =~= ks.take(i as int));
                assert(ks.take(i + 1).last() == ks[i as int]);
            }
            if store.contains(self.keys[i].as_str()) {
                count += 1;
            }
        }
        proof {
            assert(ks.take(n as int) =~= ks);
        }
        uint_reply_string(count as u64)
    }
}

} // verus!
