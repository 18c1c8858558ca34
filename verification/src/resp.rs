use vstd::prelude::*;
use vstd::string::StrSliceExecFns;
use vstd::string::StringExecFns;
use vstd::string::StringSliceAdditionalSpecFns;
use vstd::utf8::encode_utf8;
use crate::num::{
    dec_digits_of, dec_int_of, i64_to_string, int_of, is_uint_literal, parse_usize,
    u64_to_string,
};

verus! {

// --- Reply forms of the wire protocol ---

pub open spec fn ok_reply() -> Seq<char> {
    "+OK\r\n"@
}

pub open spec fn null_bulk_reply() -> Seq<char> {
    "$-1\r\n"@
}

pub open spec fn no_such_key_reply() -> Seq<char> {
    "-ERR no such key\r\n"@
}

pub open spec fn not_integer_reply() -> Seq<char> {
    "-ERR value is not an integer or out of range\r\n"@
}

pub open spec fn invalid_expire_reply() -> Seq<char> {
    "-ERR invalid expire time\r\n"@
}

pub open spec fn unsupported_path_reply() -> Seq<char> {
    "-ERR unsupported JSON path\r\n"@
}

pub open spec fn unknown_command_reply() -> Seq<char> {
    "-ERR unknown command or wrong number of arguments\r\n"@
}

pub open spec fn no_command_reply() -> Seq<char> {
    "-ERR no command received\r\n"@
}

pub open spec fn users_failed_reply() -> Seq<char> {
    "-ERR failed to query users\r\n"@
}

/// An integer reply `:<v>` with the line terminator.
pub open spec fn int_reply(v: int) -> Seq<char> {
    ":"@ + dec_int_of(v) + "\r\n"@
}

/// A bulk string reply `$<len>`, terminator, payload, terminator; the
/// declared length counts the bytes of the payload's UTF-8 form.
pub open spec fn bulk_reply(v: Seq<char>) -> Seq<char> {
    "$"@ + dec_digits_of(encode_utf8(v).len()) + "\r\n"@ + v + "\r\n"@
}

pub fn ok_reply_string() -> (r: String)
    ensures
        r@ == ok_reply(),
{
    String::from_str("+OK\r\n")
}

pub fn null_bulk_reply_string() -> (r: String)
    ensures
        r@ == null_bulk_reply(),
{
    String::from_str("$-1\r\n")
}

pub fn no_such_key_reply_string() -> (r: String)
    ensures
        r@ == no_such_key_reply(),
{
    String::from_str("-ERR no such key\r\n")
}

pub fn not_integer_reply_string() -> (r: String)
    ensures
        r@ == not_integer_reply(),
{
    String::from_str("-ERR value is not an integer or out of range\r\n")
}

pub fn invalid_expire_reply_string() -> (r: String)
    ensures
        r@ == invalid_expire_reply(),
{
    String::from_str("-ERR invalid expire time\r\n")
}

pub fn unsupported_path_reply_string() -> (r: String)
    ensures
        r@ == unsupported_path_reply(),
{
    String::from_str("-ERR unsupported JSON path\r\n")
}

pub fn unknown_command_reply_string() -> (r: String)
    ensures
        r@ == unknown_command_reply(),
{
    String::from_str("-ERR unknown command or wrong number of arguments\r\n")
}

pub fn no_command_reply_string() -> (r: String)
    ensures
        r@ == no_command_reply(),
{
    String::from_str("-ERR no command received\r\n")
}

pub fn users_failed_reply_string() -> (r: String)
    ensures
        r@ == users_failed_reply(),
{
    String::from_str("-ERR failed to query users\r\n")
}

pub fn int_reply_string(v: i64) -> (r: String)
    ensures
        r@ == int_reply(v as int),
{
    let mut r = String::from_str(":");
    let d = i64_to_string(v);
    r.append(d.as_str());
    r.append("\r\n");
    proof {
        assert(r@ =~= int_reply(v as int));
    }
    r
}

pub fn uint_reply_string(v: u64) -> (r: String)
    ensures
        r@ == int_reply(v as int),
{
    let mut r = String::from_str(":");
    let d = u64_to_string(v);
    r.append(d.as_str());
    r.append("\r\n");
    proof {
        assert(r@ =~= int_reply(v as int));
    }
    r
}

pub fn bulk_reply_string(v: &str) -> (r: String)
    ensures
        r@ == bulk_reply(v@),
{
    let vb = v.as_bytes();
    let n = vb.len();
    proof {
        vstd::slice::axiom_spec_len(vb);
        assert(n as nat == encode_utf8(v@).len());
    }
    let mut r = String::from_str("$");
    let d = u64_to_string(n as u64);
    r.append(d.as_str());
    r.append("\r\n");
    r.append(v);
    r.append("\r\n");
    proof {
        assert(r@ =~= bulk_reply(v@));
    }
    r
}

// --- Frame decoding ---

/// Index of the first "\r\n" in s, or -1 if there is none.
pub open spec fn first_sep(s: Seq<char>) -> int
    decreases s.len(),
{
    if s.len() < 2 {
        -1
    } else if s[0] == '\r' && s[1] == '\n' {
        0
    } else {
        let r = first_sep(s.skip(1));
        if r < 0 {
            -1
        } else {
            r + 1
        }
    }
}

/// The pieces of s between occurrences of "\r\n", in order, including a
/// final (possibly empty) piece after the last separator.
pub open spec fn split_crlf(s: Seq<char>) -> Seq<Seq<char>>
    decreases s.len(),
{
    let i = first_sep(s);
    if 0 <= i && i + 2 <= s.len() {
        seq![s.subrange(0, i)] + split_crlf(s.skip(i + 2))
    } else {
        seq![s]
    }
}

proof fn lemma_first_sep_none(s: Seq<char>)
    requires
        forall|j: int| 0 <= j && j + 1 < s.len() ==> !(#[trigger] s[j] == '\r' && s[j + 1] == '\n'),
    ensures
        first_sep(s) == -1,
    decreases s.len(),
{
    if s.len() >= 2 {
        assert(!(s[0] == '\r' && s[1] == '\n'));
        assert forall|j: int| 0 <= j && j + 1 < s.skip(1).len() implies !(#[trigger] s.skip(1)[j] == '\r'
            && s.skip(1)[j + 1] == '\n') by {
            assert(s.skip(1)[j] == s[j + 1]);
            assert(s.skip(1)[j + 1] == s[j + 2]);
        }
        lemma_first_sep_none(s.skip(1));
    }
}

proof fn lemma_first_sep_at(s: Seq<char>, k: int)
    requires
        0 <= k,
        k + 1 < s.len(),
        s[k] == '\r',
        s[k + 1] == '\n',
        forall|j: int| 0 <= j < k ==> !(#[trigger] s[j] == '\r' && s[j + 1] == '\n'),
    ensures
        first_sep(s) == k,
    decreases s.len(),
{
    if k > 0 {
        assert(s.skip(1)[k - 1] == s[k]);
        assert(s.skip(1)[k] == s[k + 1]);
        assert forall|j: int| 0 <= j < k - 1 implies !(#[trigger] s.skip(1)[j] == '\r' && s.skip(1)[j + 1]
            == '\n') by {
            assert(s.skip(1)[j] == s[j + 1]);
            assert(s.skip(1)[j + 1] == s[j + 2]);
        }
        lemma_first_sep_at(s.skip(1), k - 1);
        assert(!(s[0] == '\r' && s[1] == '\n'));
    }
}

/// Split a string on the two-character line terminator.
pub fn split_lines(s: &str) -> (parts: Vec<String>)
    ensures
        parts.deep_view() == split_crlf(s@),
{
    let n = s.unicode_len();
    let mut parts: Vec<String> = Vec::new();
    let mut piece_start: usize = 0;
    let mut i: usize = 0;
    proof {
        assert(s@.skip(0) =~= s@);
        assert(parts.deep_view() =~~= Seq::<Seq<char>>::empty());
    }
    while n >= 2 && i < n - 1
        invariant
            piece_start <= i <= n,
            n == s@.len(),
            split_crlf(s@) == parts.deep_view() + split_crlf(s@.skip(piece_start as int)),
            forall|j: int| piece_start <= j && j < i ==> !(#[trigger] s@[j] == '\r' && s@[j + 1] == '\n'),
        decreases n - i,
    {
        let c1 = s.get_char(i);
        let c2 = s.get_char(i + 1);
        if c1 == '\r' && c2 == '\n' {
            let piece = s.substring_char(piece_start, i);
            let ghost dv0 = parts.deep_view();
            parts.push(piece.to_owned());
            proof {
                let t = s@.skip(piece_start as int);
                assert forall|j: int| 0 <= j < i - piece_start implies !(#[trigger] t[j] == '\r' && t[j + 1]
                    == '\n') by {
                    assert(t[j] == s@[piece_start + j]);
                    assert(t[j + 1] == s@[piece_start + j + 1]);
                }
                assert(t[i - piece_start] == s@[i as int]);
                assert(t[i - piece_start + 1] == s@[i + 1]);
                lemma_first_sep_at(t, i - piece_start);
                assert(t.subrange(0, i - piece_start) =~= s@.subrange(
                    piece_start as int,
                    i as int,
                ));
                assert(t.skip(i - piece_start + 2) =~= s@.skip(i + 2));
                assert(split_crlf(t) == seq![piece@] + split_crlf(s@.skip(i + 2)));
                assert(parts.deep_view() =~~= dv0.push(piece@));
                assert(parts.deep_view() + split_crlf(s@.skip(i + 2)) =~~= dv0 + split_crlf(t));
            }
            i = i + 2;
            piece_start = i;
        } else {
            i = i + 1;
        }
    }
    let piece = s.substring_char(piece_start, n);
    let ghost dv0 = parts.deep_view();
    parts.push(piece.to_owned());
    proof {
        let t = s@.skip(piece_start as int);
        assert forall|j: int| 0 <= j && j + 1 < t.len() implies !(#[trigger] t[j] == '\r' && t[j + 1]
            == '\n') by {
            assert(t[j] == s@[piece_start + j]);
            assert(t[j + 1] == s@[piece_start + j + 1]);
        }
        lemma_first_sep_none(t);
        assert(split_crlf(t) =~= seq![t]);
        assert(t =~= s@.subrange(piece_start as int, n as int));
        assert(parts.deep_view() =~~= dv0.push(piece@));
        assert(parts.deep_view() =~~= dv0 + seq![t]);
    }
    parts
}

/// The decoded argument contributed by position i of the frame, if its
/// length header and literal line are both present and consistent.
pub open spec fn arg_at(parts: Seq<Seq<char>>, i: int) -> Seq<Seq<char>> {
    if 2 * i + 2 < parts.len() {
        let lenline = parts[2 * i + 1];
        let v = parts[2 * i + 2];
        if lenline.len() > 0 && lenline[0] == '$' && is_uint_literal(lenline.skip(1)) && int_of(
            lenline.skip(1),
        ) <= usize::MAX && encode_utf8(v).len() == int_of(lenline.skip(1)) {
            seq![v]
        } else {
            seq![]
        }
    } else {
        seq![]
    }
}

/// Arguments collected from the first `count` declared positions.
pub open spec fn frame_args(parts: Seq<Seq<char>>, count: int) -> Seq<Seq<char>>
    decreases count,
{
    if count <= 0 {
        seq![]
    } else {
        frame_args(parts, count - 1) + arg_at(parts, count - 1)
    }
}

/// Best-effort decoding of one frame: a `*<N>` count line, then for each of
/// the N arguments a `$<L>` length line and a literal line of exactly L
/// characters. Malformed pieces are dropped; a malformed count yields no
/// arguments at all.
pub open spec fn decode_frame(s: Seq<char>) -> Seq<Seq<char>> {
    let parts = split_crlf(s);
    let first = parts[0];
    if first.len() > 0 && first[0] == '*' && is_uint_literal(first.skip(1)) && int_of(
        first.skip(1),
    ) <= usize::MAX {
        frame_args(parts, int_of(first.skip(1)))
    } else {
        seq![]
    }
}

proof fn lemma_frame_args_stable(parts: Seq<Seq<char>>, k: int, count: int)
    requires
        0 <= k <= count,
        2 * k + 2 >= parts.len(),
    ensures
        frame_args(parts, count) == frame_args(parts, k),
    decreases count - k,
{
    if count > k {
        lemma_frame_args_stable(parts, k, count - 1);
        assert(2 * (count - 1) + 2 >= parts.len());
        assert(arg_at(parts, count - 1) =~= Seq::<Seq<char>>::empty());
        assert(frame_args(parts, count) =~= frame_args(parts, count - 1));
    }
}

/// Decode a raw chunk into command arguments. Returns the empty vector when
/// the chunk does not carry a well-formed count line.
pub fn parse_resp_bulk_string(input: &str) -> (args: Vec<String>)
    ensures
        args.deep_view() == decode_frame(input@),
{
    let parts = split_lines(input);
    let ghost pdv = parts.deep_view();
    proof {
        assert(split_crlf(input@).len() >= 1);
        assert(parts@.len() == pdv.len());
    }
    let mut args: Vec<String> = Vec::new();
    let first_len = parts[0].as_str().unicode_len();
    if first_len == 0 || parts[0].as_str().get_char(0) != '*' {
        proof {
            assert(pdv[0] == parts@[0]@);
            assert(decode_frame(input@) =~~= Seq::<Seq<char>>::empty());
            assert(args.deep_view() =~~= Seq::<Seq<char>>::empty());
        }
        return args;
    }
    let rest = parts[0].as_str().substring_char(1, first_len);
    proof {
        assert(rest@ =~= pdv[0].skip(1));
    }
    let count = match parse_usize(rest) {
        None => {
            proof {
                assert(decode_frame(input@) =~~= Seq::<Seq<char>>::empty());
                assert(args.deep_view() =~~= Seq::<Seq<char>>::empty());
            }
            return args;
        }
        Some(c) => c,
    };
    let m = parts.len();
    proof {
        assert(args.deep_view() =~~= frame_args(pdv, 0));
    }
    // positions i with 2*i + 2 < m can contribute an argument
    let lim: usize = if m >= 3 {
        if (m - 3) / 2 + 1 < count {
            (m - 3) / 2 + 1
        } else {
            count
        }
    } else {
        0
    };
    proof {
        assert(frame_args(pdv, count as int) == frame_args(pdv, lim as int)) by {
            if lim < count {
                assert(2 * (lim as int) + 2 >= m as int);
                lemma_frame_args_stable(pdv, lim as int, count as int);
            }
        }
    }
    for i in 0..lim
        invariant
            pdv == parts.deep_view(),
            m == parts@.len(),
            lim <= count,
            lim as int * 2 + 2 <= m as int + 1,
            args.deep_view() == frame_args(pdv, i as int),
    {
        proof {
            assert(2 * (i as int) + 2 < m as int);
        }
        let lenline = parts[2 * i + 1].as_str();
        let v = parts[2 * i + 2].as_str();
        proof {
            assert(lenline@ == pdv[2 * (i as int) + 1]);
            assert(v@ == pdv[2 * (i as int) + 2]);
        }
        let ghost dv0 = args.deep_view();
        let ll = lenline.unicode_len();
        if ll > 0 && lenline.get_char(0) == '$' {
            let lrest = lenline.substring_char(1, ll);
            proof {
                assert(lrest@ =~= lenline@.skip(1));
            }
            match parse_usize(lrest) {
                Some(want) => {
                    let vb = v.as_bytes();
                    proof {
                        vstd::slice::axiom_spec_len(vb);
                        assert(vb@.len() == encode_utf8(v@).len());
                    }
                    if vb.len() == want {
                        args.push(v.to_owned());
                        proof {
                            assert(arg_at(pdv, i as int) =~= seq![v@]);
                            assert(args.deep_view() =~~= dv0.push(v@));
                        }
                    } else {
                        proof {
                            assert(arg_at(pdv, i as int) =~= Seq::<Seq<char>>::empty());
                        }
                    }
                }
                None => {
                    proof {
                        assert(arg_at(pdv, i as int) =~= Seq::<Seq<char>>::empty());
                    }
                }
            }
        } else {
            proof {
                assert(arg_at(pdv, i as int) =~= Seq::<Seq<char>>::empty());
            }
        }
        proof {
            assert(args.deep_view() =~~= frame_args(pdv, i + 1));
        }
    }
    proof {
        assert(decode_frame(input@) == frame_args(pdv, count as int));
    }
    args
}

} // verus!
