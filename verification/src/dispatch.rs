use vstd::prelude::*;
use vstd::string::StrSliceExecFns;
use crate::cmd::decr::{decr_map, decr_reply, DecrCommand};
use crate::cmd::exists_cmd::{exists_reply, ExistsCommand};
use crate::cmd::expire::{expire_map, expire_reply, ExpireCommand};
use crate::cmd::get::{get_map, get_reply, GetCommand};
use crate::cmd::incr::{incr_map, incr_reply, IncrCommand};
use crate::cmd::json::{
    deljson_map, deljson_reply, getjson_reply, setjson_map, setjson_reply, DelJsonCommand,
    GetJsonCommand, SetJsonCommand,
};
use crate::cmd::set::{set_map, SetCommand};
use crate::cmd::ttl::{ttl_reply, TTLCommand};
use crate::num::{int_of, is_uint_literal, parse_u64};
use crate::resp::{
    invalid_expire_reply, invalid_expire_reply_string, no_command_reply, no_command_reply_string,
    ok_reply, unknown_command_reply, unknown_command_reply_string,
};
use crate::store::{str_eq, RecordModel, Store};

verus! {

/// b is a, upper-cased if a is an ASCII lower-case letter.
pub open spec fn char_upper_eq(a: char, b: char) -> bool {
    b == a || ('a' <= a && a <= 'z' && b as u32 == a as u32 - 32)
}

/// t is s with ASCII lower-case letters raised to upper case.
pub open spec fn eq_upper(s: Seq<char>, t: Seq<char>) -> bool {
    s.len() == t.len() && forall|i: int| 0 <= i < s.len() ==> char_upper_eq(#[trigger] s[i], t[i])
}

/// Does s name the command t, matching case-insensitively? t is the
/// upper-case command name.
fn eq_ignore_case(s: &str, t: &str) -> (r: bool)
    ensures
        r == eq_upper(s@, t@),
{
    let n = s.unicode_len();
    if n != t.unicode_len() {
        return false;
    }
    for i in 0..n
        invariant
            n == s@.len(),
            n == t@.len(),
            forall|j: int| 0 <= j < i ==> char_upper_eq(#[trigger] s@[j], t@[j]),
    {
        let a = s.get_char(i);
        let b = t.get_char(i);
        let ok = a == b || ('a' <= a && a <= 'z' && (a as u32) - 32 == b as u32);
        if !ok {
            assert(!char_upper_eq(s@[i as int], t@[i as int]));
            return false;
        }
    }
    true
}

/// The u64 a piece of text denotes, if it is a well-formed unsigned decimal
/// literal in range.
pub open spec fn parsed_u64(s: Seq<char>) -> Option<u64> {
    if is_uint_literal(s) && int_of(s) <= u64::MAX {
        Some(int_of(s) as u64)
    } else {
        None
    }
}

/// The EX / PX options collected from the trailing SET arguments, scanning
/// from position i: a later occurrence overwrites an earlier one, scanning
/// stops at the first token that is neither, or at an option with no value
/// after it. A value that does not parse leaves that option unset.
pub open spec fn set_options(
    args: Seq<Seq<char>>,
    i: int,
    ex: Option<u64>,
    px: Option<u64>,
) -> (Option<u64>, Option<u64>)
    decreases args.len() - i,
{
    if i < 0 || i >= args.len() {
        (ex, px)
    } else if args[i] == "EX"@ && i + 1 < args.len() {
        set_options(args, i + 2, parsed_u64(args[i + 1]), px)
    } else if args[i] == "PX"@ && i + 1 < args.len() {
        set_options(args, i + 2, ex, parsed_u64(args[i + 1]))
    } else {
        (ex, px)
    }
}

fn parse_set_options(args: &Vec<String>) -> (r: (Option<u64>, Option<u64>))
    requires
        args@.len() >= 3,
    ensures
        r == set_options(args.deep_view(), 3, None, None),
{
    let ghost adv = args.deep_view();
    let mut ex: Option<u64> = None;
    let mut px: Option<u64> = None;
    let mut i: usize = 3;
    let mut done = false;
    let n = args.len();
    proof {
        reveal_strlit("EX");
        reveal_strlit("PX");
        assert("EX"@[0] == 'E' && "PX"@[0] == 'P');
        assert("EX"@ != "PX"@);
    }
    while !done && i < n
        invariant
            3 <= i,
            n == args@.len(),
            adv == args.deep_view(),
            set_options(adv, 3, None, None) == set_options(adv, i as int, ex, px),
            done ==> set_options(adv, i as int, ex, px) == (ex, px),
        decreases n - i, if done { 0int } else { 1int },
    {
        proof {
            assert(adv[i as int] == args@[i as int]@);
        }
        if str_eq(args[i].as_str(), "EX") {
            if i + 1 < n {
                proof {
                    assert(adv[i + 1] == args@[i + 1]@);
                }
                ex = parse_u64(args[i + 1].as_str());
                i += 2;
            } else {
                done = true;
            }
        } else if str_eq(args[i].as_str(), "PX") {
            if i + 1 < n {
                proof {
                    assert(adv[i + 1] == args@[i + 1]@);
                }
                px = parse_u64(args[i + 1].as_str());
                i += 2;
            } else {
                done = true;
            }
        } else {
            done = true;
        }
    }
    (ex, px)
}

/// The outcome of dispatching one decoded frame: a finished reply, or the
/// request to run the user query, whose reply the caller builds from the
/// query's result.
pub enum Dispatched {
    Reply(String),
    QueryUsers,
}

pub open spec fn dispatched_view(d: Dispatched) -> Option<Seq<char>> {
    match d {
        Dispatched::Reply(r) => Some(r@),
        Dispatched::QueryUsers => None,
    }
}

/// The whole command engine on one decoded frame: the store afterwards and
/// the reply (`None`: the caller must run the user query). An empty frame
/// and an unknown name or a wrong argument count are protocol errors that
/// leave the store unchanged.
pub open spec fn dispatch_model(
    args: Seq<Seq<char>>,
    m: Map<Seq<char>, RecordModel>,
    now: u64,
) -> (Map<Seq<char>, RecordModel>, Option<Seq<char>>) {
    if args.len() == 0 {
        (m, Some(no_command_reply()))
    } else if eq_upper(args[0], "SET"@) {
        if args.len() >= 3 {
            let opts = set_options(args, 3, None, None);
            (set_map(m, args[1], args[2], opts.0, opts.1, now), Some(ok_reply()))
        } else {
            (m, Some(unknown_command_reply()))
        }
    } else if eq_upper(args[0], "GET"@) && args.len() == 2 {
        (get_map(m, args[1], now), Some(get_reply(m, args[1], now)))
    } else if eq_upper(args[0], "EXPIRE"@) && args.len() == 3 {
        match parsed_u64(args[2]) {
            Some(secs) => (expire_map(m, args[1], secs, now), Some(expire_reply(m, args[1]))),
            None => (m, Some(invalid_expire_reply())),
        }
    } else if eq_upper(args[0], "TTL"@) && args.len() == 2 {
        (m, Some(ttl_reply(m, args[1], now)))
    } else if eq_upper(args[0], "INCR"@) && args.len() == 2 {
        (incr_map(m, args[1]), Some(incr_reply(m, args[1])))
    } else if eq_upper(args[0], "DECR"@) && args.len() == 2 {
        (decr_map(m, args[1]), Some(decr_reply(m, args[1])))
    } else if eq_upper(args[0], "EXISTS"@) && args.len() >= 2 {
        (m, Some(exists_reply(m, args.skip(1))))
    } else if eq_upper(args[0], "USERS"@) {
        (m, None)
    } else if eq_upper(args[0], "JSON.SET"@) && args.len() == 4 {
        (setjson_map(m, args[1], args[2], args[3]), Some(setjson_reply(args[2])))
    } else if eq_upper(args[0], "JSON.GET"@) && args.len() >= 2 {
        (m, Some(getjson_reply(m, args[1], args.skip(2))))
    } else if eq_upper(args[0], "JSON.DEL"@) && args.len() == 2 {
        (deljson_map(m, args[1]), Some(deljson_reply(m, args[1])))
    } else {
        (m, Some(unknown_command_reply()))
    }
}

/// Run one decoded frame against the store.
pub fn dispatch(args: &Vec<String>, store: &mut Store, now: u64) -> (r: Dispatched)
    requires
        old(store).wf(),
    ensures
        final(store).wf(),
        final(store)@ == dispatch_model(args.deep_view(), old(store)@, now).0,
        dispatched_view(r) == dispatch_model(args.deep_view(), old(store)@, now).1,
{
    let ghost adv = args.deep_view();
    if args.len() == 0 {
        return Dispatched::Reply(no_command_reply_string());
    }
    proof {
        assert(adv[0] == args@[0]@);
        if args@.len() >= 2 {
            assert(adv[1] == args@[1]@);
        }
        if args@.len() >= 3 {
            assert(adv[2] == args@[2]@);
        }
        if args@.len() >= 4 {
            assert(adv[3] == args@[3]@);
        }
    }
    if eq_ignore_case(args[0].as_str(), "SET") {
        if args.len() >= 3 {
            let opts = parse_set_options(args);
            let c = SetCommand::new(args[1].as_str(), args[2].as_str(), opts.0, opts.1);
            Dispatched::Reply(c.execute(store, now))
        } else {
            Dispatched::Reply(unknown_command_reply_string())
        }
    } else if eq_ignore_case(args[0].as_str(), "GET") && args.len() == 2 {
        let c = GetCommand::new(args[1].as_str());
        Dispatched::Reply(c.execute(store, now))
    } else if eq_ignore_case(args[0].as_str(), "EXPIRE") && args.len() == 3 {
        match parse_u64(args[2].as_str()) {
            Some(secs) => {
                let c = ExpireCommand::new(args[1].as_str(), secs);
                Dispatched::Reply(c.execute(store, now))
            }
            None => Dispatched::Reply(invalid_expire_reply_string()),
        }
    } else if eq_ignore_case(args[0].as_str(), "TTL") && args.len() == 2 {
        let c = TTLCommand::new(args[1].as_str());
        Dispatched::Reply(c.execute(&*store, now))
    } else if eq_ignore_case(args[0].as_str(), "INCR") && args.len() == 2 {
        let c = IncrCommand::new(args[1].as_str());
        Dispatched::Reply(c.execute(store))
    } else if eq_ignore_case(args[0].as_str(), "DECR") && args.len() == 2 {
        let c = DecrCommand::new(args[1].as_str());
        Dispatched::Reply(c.execute(store))
    } else if eq_ignore_case(args[0].as_str(), "EXISTS") && args.len() >= 2 {
        let mut keys: Vec<String> = Vec::new();
        let n = args.len();
        for i in 1..n
            invariant
                n == args@.len(),
                adv == args.deep_view(),
                keys@.len() == i - 1,
                forall|l: int| 0 <= l < i - 1 ==> (#[trigger] keys@[l])@ == adv[l + 1],
        {
            keys.push(args[i].clone());
        }
        let c = ExistsCommand::new(keys);
        let rep = c.execute(&*store);
        proof {
            assert(c.keys.deep_view() =~~= adv.skip(1));
        }
        Dispatched::Reply(rep)
    } else if eq_ignore_case(args[0].as_str(), "USERS") {
        Dispatched::QueryUsers
    } else if eq_ignore_case(args[0].as_str(), "JSON.SET") && args.len() == 4 {
        let c = SetJsonCommand::new(args[1].as_str(), args[2].as_str(), args[3].as_str());
        Dispatched::Reply(c.execute(store))
    } else if eq_ignore_case(args[0].as_str(), "JSON.GET") && args.len() >= 2 {
        let mut ps: Vec<&str> = Vec::new();
        let n = args.len();
        for i in 2..n
            invariant
                n == args@.len(),
                adv == args.deep_view(),
                ps@.len() == i - 2,
                forall|l: int| 0 <= l < i - 2 ==> (#[trigger] ps@[l])@ == adv[l + 2],
        {
            ps.push(args[i].as_str());
        }
        let sl = ps.as_slice();
        let c = GetJsonCommand::new(args[1].as_str(), sl);
        let rep = c.execute(&*store);
        proof {
            assert(sl.deep_view() =~~= adv.skip(2));
            assert(c.paths.deep_view() =~~= adv.skip(2));
        }
        Dispatched::Reply(rep)
    } else if eq_ignore_case(args[0].as_str(), "JSON.DEL") && args.len() == 2 {
        let c = DelJsonCommand::new(args[1].as_str());
        Dispatched::Reply(c.execute(store))
    } else {
        Dispatched::Reply(unknown_command_reply_string())
    }
}

} // verus!
