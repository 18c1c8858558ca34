use vstd::prelude::*;
use vstd::string::StringExecFns;

verus! {

/// One user row written as `name:password:role`.
pub open spec fn user_line(u: (Seq<char>, Seq<char>, Seq<char>)) -> Seq<char> {
    u.0 + ":"@ + u.1 + ":"@ + u.2
}

/// The USERS reply body: one line per row, joined by a newline.
pub open spec fn users_reply(rs: Seq<(Seq<char>, Seq<char>, Seq<char>)>) -> Seq<char>
    decreases rs.len(),
{
    if rs.len() == 0 {
        Seq::empty()
    } else if rs.len() == 1 {
        user_line(rs[0])
    } else {
        users_reply(rs.drop_last()) + "\n"@ + user_line(rs.last())
    }
}

/// Write the rows a user query returned as the USERS reply body.
pub fn format_users(rows: &Vec<(String, String, String)>) -> (r: String)
    ensures
        r@ == users_reply(rows.deep_view()),
{
    let ghost rdv = rows.deep_view();
    let n = rows.len();
    let mut r = String::new();
    proof {
        assert(users_reply(rdv.take(0)) =~= Seq::<char>::empty());
        assert(r@ =~= Seq::<char>::empty());
    }
    for i in 0..n
        invariant
            n == rows@.len(),
            rdv == rows.deep_view(),
            r@ == users_reply(rdv.take(i as int)),
    {
        if i > 0 {
            r.append("\n");
        }
        r.append(rows[i].0.as_str());
        r.append(":");
        r.append(rows[i].1.as_str());
        r.append(":");
        r.append(rows[i].2.as_str());
        proof {
            assert(rdv[i as int] == rows@[i as int].deep_view());
            assert(rdv.take(i + 1).drop_last() =~= rdv.take(i as int));
            assert(rdv.take(i + 1).last() == rdv[i as int]);
            if i == 0 {
                assert(users_reply(rdv.take(1)) == user_line(rdv[0]));
            }
            assert(r@ =~= users_reply(rdv.take(i + 1)));
        }
    }
    proof {
        assert(rdv.take(n as int) =~= rdv);
    }
    r
}

} // verus!
