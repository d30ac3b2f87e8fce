//! The persistence format: each collection as a JSON document, one record per
//! line.  The library renders and parses the documents itself, so the round
//! trip — parsing a rendered document gives the collections back — is proved;
//! the embedding host only moves the text to and from disk.
//!
//! Strings escape the quote and the backslash; all other characters stand as
//! they are.

use crate::checkpoint::cps_view;
use crate::checkpoint::sessions_view;
use crate::ids::all_digits;
use crate::ids::dec_val;
use crate::ids::is_digit;
use crate::ids::lemma_dec_shape;
use crate::ids::spec_dec;
use crate::types::Checkpoint;
use crate::types::CheckpointView;
use crate::types::Session;
use crate::types::SessionView;
use vstd::prelude::*;
use vstd::string::*;

verus! {

// ---------------------------------------------------------------- rendering

pub open spec fn escape_char(c: char) -> Seq<char> {
    if c == '"' {
        seq!['\\', '"']
    } else if c == '\\' {
        seq!['\\', '\\']
    } else {
        seq![c]
    }
}

pub open spec fn escape(s: Seq<char>) -> Seq<char>
    decreases s.len(),
{
    if s.len() == 0 {
        Seq::empty()
    } else {
        escape_char(s[0]) + escape(s.skip(1))
    }
}

pub open spec fn render_string(s: Seq<char>) -> Seq<char> {
    seq!['"'] + (escape(s) + seq!['"'])
}

pub open spec fn render_int(t: int) -> Seq<char> {
    if t < 0 {
        seq!['-'] + spec_dec((-t) as nat)
    } else {
        spec_dec(t as nat)
    }
}

pub open spec fn null_lit() -> Seq<char> {
    seq!['n', 'u', 'l', 'l']
}

pub open spec fn render_opt_string(h: Option<Seq<char>>) -> Seq<char> {
    match h {
        None => null_lit(),
        Some(s) => render_string(s),
    }
}

pub open spec fn render_opt_int(h: Option<int>) -> Seq<char> {
    match h {
        None => null_lit(),
        Some(t) => render_int(t),
    }
}

/// `  {"<key>": ` — opens a record and its first field.
pub open spec fn open_key(key: Seq<char>) -> Seq<char> {
    seq![' ', ' ', '{', '"'] + (key + seq!['"', ':', ' '])
}

/// `, "<key>": ` — introduces every further field.
pub open spec fn next_key(key: Seq<char>) -> Seq<char> {
    seq![',', ' ', '"'] + (key + seq!['"', ':', ' '])
}

pub open spec fn key_id() -> Seq<char> {
    seq!['i', 'd']
}

pub open spec fn key_name() -> Seq<char> {
    seq!['n', 'a', 'm', 'e']
}

pub open spec fn key_timestamp() -> Seq<char> {
    seq!['t', 'i', 'm', 'e', 's', 't', 'a', 'm', 'p']
}

pub open spec fn key_commit_hash() -> Seq<char> {
    seq!['c', 'o', 'm', 'm', 'i', 't', '_', 'h', 'a', 's', 'h']
}

pub open spec fn key_session_id() -> Seq<char> {
    seq!['s', 'e', 's', 's', 'i', 'o', 'n', '_', 'i', 'd']
}

pub open spec fn key_file_count() -> Seq<char> {
    seq!['f', 'i', 'l', 'e', '_', 'c', 'o', 'u', 'n', 't']
}

pub open spec fn key_start_time() -> Seq<char> {
    seq!['s', 't', 'a', 'r', 't', '_', 't', 'i', 'm', 'e']
}

pub open spec fn key_end_time() -> Seq<char> {
    seq!['e', 'n', 'd', '_', 't', 'i', 'm', 'e']
}

pub open spec fn render_checkpoint(c: CheckpointView) -> Seq<char> {
    open_key(key_id()) + (render_string(c.id) + (next_key(key_name()) + (render_string(c.name)
        + (next_key(key_timestamp()) + (render_int(c.timestamp) + (next_key(key_commit_hash())
        + (render_opt_string(c.commit_hash) + (next_key(key_session_id()) + (render_string(
        c.session_id,
    ) + (next_key(key_file_count()) + (render_int(c.file_count) + seq!['}'])))))))))))
}

pub open spec fn render_session(v: SessionView) -> Seq<char> {
    open_key(key_id()) + (render_string(v.id) + (next_key(key_name()) + (render_string(v.name)
        + (next_key(key_start_time()) + (render_int(v.start_time) + (next_key(key_end_time())
        + (render_opt_int(v.end_time) + seq!['}'])))))))
}

pub open spec fn render_checkpoint_items(cs: Seq<CheckpointView>) -> Seq<char>
    decreases cs.len(),
{
    if cs.len() == 0 {
        Seq::empty()
    } else if cs.len() == 1 {
        render_checkpoint(cs[0])
    } else {
        render_checkpoint(cs[0]) + (seq![',', '\n'] + render_checkpoint_items(cs.skip(1)))
    }
}

pub open spec fn render_session_items(vs: Seq<SessionView>) -> Seq<char>
    decreases vs.len(),
{
    if vs.len() == 0 {
        Seq::empty()
    } else if vs.len() == 1 {
        render_session(vs[0])
    } else {
        render_session(vs[0]) + (seq![',', '\n'] + render_session_items(vs.skip(1)))
    }
}

pub open spec fn render_checkpoints_doc(cs: Seq<CheckpointView>) -> Seq<char> {
    if cs.len() == 0 {
        seq!['[', ']']
    } else {
        seq!['[', '\n'] + (render_checkpoint_items(cs) + seq!['\n', ']'])
    }
}

pub open spec fn render_sessions_doc(vs: Seq<SessionView>) -> Seq<char> {
    if vs.len() == 0 {
        seq!['[', ']']
    } else {
        seq!['[', '\n'] + (render_session_items(vs) + seq!['\n', ']'])
    }
}

// ----------------------------------------------------------------- parsing

pub open spec fn parse_lit(s: Seq<char>, lit: Seq<char>) -> Option<Seq<char>> {
    if lit.len() <= s.len() && s.subrange(0, lit.len() as int) == lit {
        Some(s.skip(lit.len() as int))
    } else {
        None
    }
}

/// The inside of a string token, after its opening quote: everything decoded
/// up to the closing quote, and what follows the closing quote.
pub open spec fn parse_string_body(s: Seq<char>) -> Option<(Seq<char>, Seq<char>)>
    decreases s.len(),
{
    if s.len() == 0 {
        None
    } else if s[0] == '"' {
        Some((Seq::empty(), s.skip(1)))
    } else if s[0] == '\\' {
        if s.len() >= 2 && (s[1] == '"' || s[1] == '\\') {
            match parse_string_body(s.skip(2)) {
                Some(p) => Some((seq![s[1]] + p.0, p.1)),
                None => None,
            }
        } else {
            None
        }
    } else {
        match parse_string_body(s.skip(1)) {
            Some(p) => Some((seq![s[0]] + p.0, p.1)),
            None => None,
        }
    }
}

pub open spec fn parse_string(s: Seq<char>) -> Option<(Seq<char>, Seq<char>)> {
    if s.len() >= 1 && s[0] == '"' {
        parse_string_body(s.skip(1))
    } else {
        None
    }
}

/// The longest digit prefix and what follows it.
pub open spec fn parse_digits(s: Seq<char>) -> (Seq<char>, Seq<char>)
    decreases s.len(),
{
    if s.len() == 0 || !is_digit(s[0]) {
        (Seq::empty(), s)
    } else {
        let p = parse_digits(s.skip(1));
        (seq![s[0]] + p.0, p.1)
    }
}

pub open spec fn parse_int(s: Seq<char>) -> Option<(int, Seq<char>)> {
    if s.len() >= 1 && s[0] == '-' {
        let p = parse_digits(s.skip(1));
        if p.0.len() == 0 {
            None
        } else {
            Some((-(dec_val(p.0) as int), p.1))
        }
    } else {
        let p = parse_digits(s);
        if p.0.len() == 0 {
            None
        } else {
            Some((dec_val(p.0) as int, p.1))
        }
    }
}

pub open spec fn parse_opt_string(s: Seq<char>) -> Option<(Option<Seq<char>>, Seq<char>)> {
    match parse_lit(s, null_lit()) {
        Some(r) => Some((None, r)),
        None => match parse_string(s) {
            Some(p) => Some((Some(p.0), p.1)),
            None => None,
        },
    }
}

pub open spec fn parse_opt_int(s: Seq<char>) -> Option<(Option<int>, Seq<char>)> {
    match parse_lit(s, null_lit()) {
        Some(r) => Some((None, r)),
        None => match parse_int(s) {
            Some(p) => Some((Some(p.0), p.1)),
            None => None,
        },
    }
}

/// A value the machine's integer types can hold.
pub open spec fn ts_in_range(t: int) -> bool {
    i64::MIN <= t <= i64::MAX
}

pub open spec fn count_in_range(t: int) -> bool {
    0 <= t <= usize::MAX
}

pub open spec fn checkpoint_in_range(c: CheckpointView) -> bool {
    ts_in_range(c.timestamp) && count_in_range(c.file_count)
}

pub open spec fn session_in_range(v: SessionView) -> bool {
    ts_in_range(v.start_time) && (match v.end_time {
        Some(t) => ts_in_range(t),
        None => true,
    })
}

pub open spec fn parse_checkpoint(s: Seq<char>) -> Option<(CheckpointView, Seq<char>)> {
    match parse_lit(s, open_key(key_id())) {
        None => None,
        Some(s1) => match parse_string(s1) {
            None => None,
            Some((id, s2)) => match parse_lit(s2, next_key(key_name())) {
                None => None,
                Some(s3) => match parse_string(s3) {
                    None => None,
                    Some((name, s4)) => match parse_lit(s4, next_key(key_timestamp())) {
                        None => None,
                        Some(s5) => match parse_int(s5) {
                            None => None,
                            Some((ts, s6)) => match parse_lit(s6, next_key(key_commit_hash())) {
                                None => None,
                                Some(s7) => match parse_opt_string(s7) {
                                    None => None,
                                    Some((hash, s8)) => match parse_lit(
                                        s8,
                                        next_key(key_session_id()),
                                    ) {
                                        None => None,
                                        Some(s9) => match parse_string(s9) {
                                            None => None,
                                            Some((sid, s10)) => match parse_lit(
                                                s10,
                                                next_key(key_file_count()),
                                            ) {
                                                None => None,
                                                Some(s11) => match parse_int(s11) {
                                                    None => None,
                                                    Some((fc, s12)) => match parse_lit(
                                                        s12,
                                                        seq!['}'],
                                                    ) {
                                                        None => None,
                                                        Some(s13) => if ts_in_range(ts)
                                                            && count_in_range(fc) {
                                                            Some(
                                                                (
                                                                    CheckpointView {
                                                                        id: id,
                                                                        name: name,
                                                                        timestamp: ts,
                                                                        commit_hash: hash,
                                                                        session_id: sid,
                                                                        file_count: fc,
                                                                    },
                                                                    s13,
                                                                ),
                                                            )
                                                        } else {
                                                            None
                                                        },
                                                    },
                                                },
                                            },
                                        },
                                    },
                                },
                            },
                        },
                    },
                },
            },
        },
    }
}

pub open spec fn parse_session(s: Seq<char>) -> Option<(SessionView, Seq<char>)> {
    match parse_lit(s, open_key(key_id())) {
        None => None,
        Some(s1) => match parse_string(s1) {
            None => None,
            Some((id, s2)) => match parse_lit(s2, next_key(key_name())) {
                None => None,
                Some(s3) => match parse_string(s3) {
                    None => None,
                    Some((name, s4)) => match parse_lit(s4, next_key(key_start_time())) {
                        None => None,
                        Some(s5) => match parse_int(s5) {
                            None => None,
                            Some((st, s6)) => match parse_lit(s6, next_key(key_end_time())) {
                                None => None,
                                Some(s7) => match parse_opt_int(s7) {
                                    None => None,
                                    Some((et, s8)) => match parse_lit(s8, seq!['}']) {
                                        None => None,
                                        Some(s9) => if ts_in_range(st) && (match et {
                                            Some(t) => ts_in_range(t),
                                            None => true,
                                        }) {
                                            Some(
                                                (
                                                    SessionView {
                                                        id: id,
                                                        name: name,
                                                        start_time: st,
                                                        end_time: et,
                                                    },
                                                    s9,
                                                ),
                                            )
                                        } else {
                                            None
                                        },
                                    },
                                },
                            },
                        },
                    },
                },
            },
        },
    }
}

pub open spec fn parse_checkpoint_items(s: Seq<char>, fuel: nat) -> Option<
    (Seq<CheckpointView>, Seq<char>),
>
    decreases fuel,
{
    if fuel == 0 {
        None
    } else {
        match parse_checkpoint(s) {
            None => None,
            Some((c, r)) => if r.len() >= 1 && r[0] == ',' {
                match parse_lit(r, seq![',', '\n']) {
                    None => None,
                    Some(r2) => match parse_checkpoint_items(r2, (fuel - 1) as nat) {
                        None => None,
                        Some((cs, r3)) => Some((seq![c] + cs, r3)),
                    },
                }
            } else {
                Some((seq![c], r))
            },
        }
    }
}

pub open spec fn parse_session_items(s: Seq<char>, fuel: nat) -> Option<
    (Seq<SessionView>, Seq<char>),
>
    decreases fuel,
{
    if fuel == 0 {
        None
    } else {
        match parse_session(s) {
            None => None,
            Some((v, r)) => if r.len() >= 1 && r[0] == ',' {
                match parse_lit(r, seq![',', '\n']) {
                    None => None,
                    Some(r2) => match parse_session_items(r2, (fuel - 1) as nat) {
                        None => None,
                        Some((vs, r3)) => Some((seq![v] + vs, r3)),
                    },
                }
            } else {
                Some((seq![v], r))
            },
        }
    }
}

pub open spec fn parse_checkpoints_doc(s: Seq<char>) -> Option<Seq<CheckpointView>> {
    if s == seq!['[', ']'] {
        Some(Seq::empty())
    } else {
        match parse_lit(s, seq!['[', '\n']) {
            None => None,
            Some(s1) => match parse_checkpoint_items(s1, s1.len()) {
                None => None,
                Some((cs, r)) => if r == seq!['\n', ']'] {
                    Some(cs)
                } else {
                    None
                },
            },
        }
    }
}

pub open spec fn parse_sessions_doc(s: Seq<char>) -> Option<Seq<SessionView>> {
    if s == seq!['[', ']'] {
        Some(Seq::empty())
    } else {
        match parse_lit(s, seq!['[', '\n']) {
            None => None,
            Some(s1) => match parse_session_items(s1, s1.len()) {
                None => None,
                Some((vs, r)) => if r == seq!['\n', ']'] {
                    Some(vs)
                } else {
                    None
                },
            },
        }
    }
}

// --------------------------------------------------- the round-trip proofs

proof fn lemma_parse_lit_rt(lit: Seq<char>, rest: Seq<char>)
    ensures
        parse_lit(lit + rest, lit) == Some(rest),
{
    let s = lit + rest;
    assert(s.subrange(0, lit.len() as int) =~= lit);
    assert(s.skip(lit.len() as int) =~= rest);
}

proof fn lemma_parse_escape_rt(x: Seq<char>, rest: Seq<char>)
    ensures
        parse_string_body(escape(x) + (seq!['"'] + rest)) == Some((x, rest)),
    decreases x.len(),
{
    let s = escape(x) + (seq!['"'] + rest);
    if x.len() == 0 {
        assert(escape(x) =~= Seq::<char>::empty());
        assert(s[0] == '"');
        assert(s.skip(1) =~= rest);
        assert(x =~= Seq::<char>::empty());
    } else {
        let c = x[0];
        assert(escape(x) == escape_char(c) + escape(x.skip(1)));
        lemma_parse_escape_rt(x.skip(1), rest);
        if c == '"' {
            assert(escape(x)[0] == '\\');
            assert(escape(x)[1] == '"');
            assert(s[0] == '\\');
            assert(s[1] == '"');
            assert(s.skip(2) =~= escape(x.skip(1)) + (seq!['"'] + rest));
            assert(seq![s[1]] + x.skip(1) =~= x);
        } else if c == '\\' {
            assert(escape(x)[0] == '\\');
            assert(escape(x)[1] == '\\');
            assert(s[0] == '\\');
            assert(s[1] == '\\');
            assert(s.skip(2) =~= escape(x.skip(1)) + (seq!['"'] + rest));
            assert(seq![s[1]] + x.skip(1) =~= x);
        } else {
            assert(escape(x)[0] == c);
            assert(s[0] == c);
            assert(s.skip(1) =~= escape(x.skip(1)) + (seq!['"'] + rest));
            assert(seq![s[0]] + x.skip(1) =~= x);
        }
    }
}

proof fn lemma_parse_string_rt(x: Seq<char>, rest: Seq<char>)
    ensures
        parse_string(render_string(x) + rest) == Some((x, rest)),
{
    let s = render_string(x) + rest;
    assert(render_string(x)[0] == '"');
    assert(s[0] == '"');
    assert(s.skip(1) =~= escape(x) + (seq!['"'] + rest));
    lemma_parse_escape_rt(x, rest);
}

proof fn lemma_parse_digits_rt(d: Seq<char>, rest: Seq<char>)
    requires
        all_digits(d),
        rest.len() == 0 || !is_digit(rest[0]),
    ensures
        parse_digits(d + rest) == (d, rest),
    decreases d.len(),
{
    let s = d + rest;
    if d.len() == 0 {
        assert(s =~= rest);
        assert(d =~= Seq::<char>::empty());
    } else {
        assert(s[0] == d[0]);
        assert(is_digit(d[0]));
        assert(s.skip(1) =~= d.skip(1) + rest);
        assert forall|i: int| 0 <= i < d.skip(1).len() implies is_digit(
            #[trigger] d.skip(1)[i],
        ) by {
            assert(d.skip(1)[i] == d[i + 1]);
        }
        lemma_parse_digits_rt(d.skip(1), rest);
        assert(seq![s[0]] + d.skip(1) =~= d);
    }
}

proof fn lemma_parse_int_rt(t: int, rest: Seq<char>)
    requires
        rest.len() == 0 || !is_digit(rest[0]),
    ensures
        parse_int(render_int(t) + rest) == Some((t, rest)),
{
    let s = render_int(t) + rest;
    if t < 0 {
        lemma_dec_shape((-t) as nat);
        assert(render_int(t)[0] == '-');
        assert(s[0] == '-');
        assert(s.skip(1) =~= spec_dec((-t) as nat) + rest);
        lemma_parse_digits_rt(spec_dec((-t) as nat), rest);
    } else {
        lemma_dec_shape(t as nat);
        assert(render_int(t)[0] == spec_dec(t as nat)[0]);
        assert(is_digit(s[0]));
        assert(s[0] != '-');
        assert(s =~= spec_dec(t as nat) + rest);
        lemma_parse_digits_rt(spec_dec(t as nat), rest);
    }
}

proof fn lemma_parse_opt_string_rt(h: Option<Seq<char>>, rest: Seq<char>)
    ensures
        parse_opt_string(render_opt_string(h) + rest) == Some((h, rest)),
{
    let s = render_opt_string(h) + rest;
    match h {
        None => {
            lemma_parse_lit_rt(null_lit(), rest);
        },
        Some(x) => {
            assert(render_string(x)[0] == '"');
            assert(s[0] == '"');
            if parse_lit(s, null_lit()) is Some {
                assert(s.subrange(0, 4)[0] == s[0]);
                assert(null_lit()[0] == 'n');
            }
            lemma_parse_string_rt(x, rest);
        },
    }
}

proof fn lemma_parse_opt_int_rt(h: Option<int>, rest: Seq<char>)
    requires
        rest.len() == 0 || !is_digit(rest[0]),
    ensures
        parse_opt_int(render_opt_int(h) + rest) == Some((h, rest)),
{
    let s = render_opt_int(h) + rest;
    match h {
        None => {
            lemma_parse_lit_rt(null_lit(), rest);
        },
        Some(t) => {
            if t < 0 {
                assert(render_int(t)[0] == '-');
            } else {
                lemma_dec_shape(t as nat);
                assert(render_int(t)[0] == spec_dec(t as nat)[0]);
                assert(is_digit(render_int(t)[0]));
            }
            assert(s[0] == render_int(t)[0]);
            assert(s[0] != 'n');
            if parse_lit(s, null_lit()) is Some {
                assert(s.subrange(0, 4)[0] == s[0]);
                assert(null_lit()[0] == 'n');
            }
            lemma_parse_int_rt(t, rest);
        },
    }
}

#[verifier::rlimit(100)]
proof fn lemma_parse_checkpoint_rt(c: CheckpointView, rest: Seq<char>)
    requires
        checkpoint_in_range(c),
    ensures
        parse_checkpoint(render_checkpoint(c) + rest) == Some((c, rest)),
{
    let s = render_checkpoint(c) + rest;
    let t12 = seq!['}'] + rest;
    let t11 = render_int(c.file_count) + t12;
    let t10 = next_key(key_file_count()) + t11;
    let t9 = render_string(c.session_id) + t10;
    let t8 = next_key(key_session_id()) + t9;
    let t7 = render_opt_string(c.commit_hash) + t8;
    let t6 = next_key(key_commit_hash()) + t7;
    let t5 = render_int(c.timestamp) + t6;
    let t4 = next_key(key_timestamp()) + t5;
    let t3 = render_string(c.name) + t4;
    let t2 = next_key(key_name()) + t3;
    let t1 = render_string(c.id) + t2;
    assert(s =~= open_key(key_id()) + t1);
    lemma_parse_lit_rt(open_key(key_id()), t1);
    lemma_parse_string_rt(c.id, t2);
    lemma_parse_lit_rt(next_key(key_name()), t3);
    lemma_parse_string_rt(c.name, t4);
    lemma_parse_lit_rt(next_key(key_timestamp()), t5);
    assert(t6[0] == ',');
    assert(!is_digit(','));
    lemma_parse_int_rt(c.timestamp, t6);
    lemma_parse_lit_rt(next_key(key_commit_hash()), t7);
    lemma_parse_opt_string_rt(c.commit_hash, t8);
    lemma_parse_lit_rt(next_key(key_session_id()), t9);
    lemma_parse_string_rt(c.session_id, t10);
    lemma_parse_lit_rt(next_key(key_file_count()), t11);
    assert(t12[0] == '}');
    assert(!is_digit('}'));
    lemma_parse_int_rt(c.file_count, t12);
    lemma_parse_lit_rt(seq!['}'], rest);
}

#[verifier::rlimit(100)]
proof fn lemma_parse_session_rt(v: SessionView, rest: Seq<char>)
    requires
        session_in_range(v),
    ensures
        parse_session(render_session(v) + rest) == Some((v, rest)),
{
    let s = render_session(v) + rest;
    let t8 = seq!['}'] + rest;
    let t7 = render_opt_int(v.end_time) + t8;
    let t6 = next_key(key_end_time()) + t7;
    let t5 = render_int(v.start_time) + t6;
    let t4 = next_key(key_start_time()) + t5;
    let t3 = render_string(v.name) + t4;
    let t2 = next_key(key_name()) + t3;
    let t1 = render_string(v.id) + t2;
    assert(s =~= open_key(key_id()) + t1);
    lemma_parse_lit_rt(open_key(key_id()), t1);
    lemma_parse_string_rt(v.id, t2);
    lemma_parse_lit_rt(next_key(key_name()), t3);
    lemma_parse_string_rt(v.name, t4);
    lemma_parse_lit_rt(next_key(key_start_time()), t5);
    assert(t6[0] == ',');
    assert(!is_digit(','));
    lemma_parse_int_rt(v.start_time, t6);
    lemma_parse_lit_rt(next_key(key_end_time()), t7);
    assert(t8[0] == '}');
    assert(!is_digit('}'));
    lemma_parse_opt_int_rt(v.end_time, t8);
    lemma_parse_lit_rt(seq!['}'], rest);
}

proof fn lemma_checkpoint_items_len(cs: Seq<CheckpointView>)
    requires
        cs.len() >= 1,
    ensures
        render_checkpoint_items(cs).len() >= cs.len(),
    decreases cs.len(),
{
    assert(open_key(key_id()).len() == 9);
    if cs.len() > 1 {
        lemma_checkpoint_items_len(cs.skip(1));
    }
}

proof fn lemma_session_items_len(vs: Seq<SessionView>)
    requires
        vs.len() >= 1,
    ensures
        render_session_items(vs).len() >= vs.len(),
    decreases vs.len(),
{
    assert(open_key(key_id()).len() == 9);
    if vs.len() > 1 {
        lemma_session_items_len(vs.skip(1));
    }
}

#[verifier::rlimit(100)]
proof fn lemma_parse_checkpoint_items_rt(cs: Seq<CheckpointView>, rest: Seq<char>, fuel: nat)
    requires
        cs.len() >= 1,
        fuel >= cs.len(),
        rest.len() >= 1,
        rest[0] == '\n',
        forall|i: int| 0 <= i < cs.len() ==> checkpoint_in_range(#[trigger] cs[i]),
    ensures
        parse_checkpoint_items(render_checkpoint_items(cs) + rest, fuel) == Some((cs, rest)),
    decreases cs.len(),
{
    let s = render_checkpoint_items(cs) + rest;
    if cs.len() == 1 {
        lemma_parse_checkpoint_rt(cs[0], rest);
        assert(seq![cs[0]] =~= cs);
    } else {
        let tail = seq![',', '\n'] + (render_checkpoint_items(cs.skip(1)) + rest);
        assert(s =~= render_checkpoint(cs[0]) + tail);
        lemma_parse_checkpoint_rt(cs[0], tail);
        assert(tail[0] == ',');
        lemma_parse_lit_rt(seq![',', '\n'], render_checkpoint_items(cs.skip(1)) + rest);
        assert forall|i: int| 0 <= i < cs.skip(1).len() implies checkpoint_in_range(
            #[trigger] cs.skip(1)[i],
        ) by {
            assert(cs.skip(1)[i] == cs[i + 1]);
        }
        lemma_parse_checkpoint_items_rt(cs.skip(1), rest, (fuel - 1) as nat);
        assert(seq![cs[0]] + cs.skip(1) =~= cs);
    }
}

#[verifier::rlimit(100)]
proof fn lemma_parse_session_items_rt(vs: Seq<SessionView>, rest: Seq<char>, fuel: nat)
    requires
        vs.len() >= 1,
        fuel >= vs.len(),
        rest.len() >= 1,
        rest[0] == '\n',
        forall|i: int| 0 <= i < vs.len() ==> session_in_range(#[trigger] vs[i]),
    ensures
        parse_session_items(render_session_items(vs) + rest, fuel) == Some((vs, rest)),
    decreases vs.len(),
{
    let s = render_session_items(vs) + rest;
    if vs.len() == 1 {
        lemma_parse_session_rt(vs[0], rest);
        assert(seq![vs[0]] =~= vs);
    } else {
        let tail = seq![',', '\n'] + (render_session_items(vs.skip(1)) + rest);
        assert(s =~= render_session(vs[0]) + tail);
        lemma_parse_session_rt(vs[0], tail);
        assert(tail[0] == ',');
        lemma_parse_lit_rt(seq![',', '\n'], render_session_items(vs.skip(1)) + rest);
        assert forall|i: int| 0 <= i < vs.skip(1).len() implies session_in_range(
            #[trigger] vs.skip(1)[i],
        ) by {
            assert(vs.skip(1)[i] == vs[i + 1]);
        }
        lemma_parse_session_items_rt(vs.skip(1), rest, (fuel - 1) as nat);
        assert(seq![vs[0]] + vs.skip(1) =~= vs);
    }
}

/// Parsing a rendered checkpoint document gives the collection back,
/// record for record and field for field.
pub proof fn lemma_checkpoints_round_trip(cs: Seq<CheckpointView>)
    requires
        forall|i: int| 0 <= i < cs.len() ==> checkpoint_in_range(#[trigger] cs[i]),
    ensures
        parse_checkpoints_doc(render_checkpoints_doc(cs)) == Some(cs),
{
    let s = render_checkpoints_doc(cs);
    if cs.len() == 0 {
        assert(cs =~= Seq::<CheckpointView>::empty());
    } else {
        lemma_checkpoint_items_len(cs);
        assert(open_key(key_id()).len() == 9);
        assert(render_checkpoint_items(cs).len() >= 9);
        assert(s.len() > 2);
        assert(s != seq!['[', ']']) by {
            assert(seq!['[', ']'].len() == 2);
        }
        let body = render_checkpoint_items(cs) + seq!['\n', ']'];
        assert(s =~= seq!['[', '\n'] + body);
        lemma_parse_lit_rt(seq!['[', '\n'], body);
        lemma_parse_checkpoint_items_rt(cs, seq!['\n', ']'], body.len());
    }
}

/// Parsing a rendered session document gives the collection back.
pub proof fn lemma_sessions_round_trip(vs: Seq<SessionView>)
    requires
        forall|i: int| 0 <= i < vs.len() ==> session_in_range(#[trigger] vs[i]),
    ensures
        parse_sessions_doc(render_sessions_doc(vs)) == Some(vs),
{
    let s = render_sessions_doc(vs);
    if vs.len() == 0 {
        assert(vs =~= Seq::<SessionView>::empty());
    } else {
        lemma_session_items_len(vs);
        assert(open_key(key_id()).len() == 9);
        assert(render_session_items(vs).len() >= 9);
        assert(s.len() > 2);
        assert(s != seq!['[', ']']) by {
            assert(seq!['[', ']'].len() == 2);
        }
        let body = render_session_items(vs) + seq!['\n', ']'];
        assert(s =~= seq!['[', '\n'] + body);
        lemma_parse_lit_rt(seq!['[', '\n'], body);
        lemma_parse_session_items_rt(vs, seq!['\n', ']'], body.len());
    }
}

// ------------------------------------------------------------ exec renderer

proof fn lemma_escape_add(a: Seq<char>, b: Seq<char>)
    ensures
        escape(a + b) == escape(a) + escape(b),
    decreases a.len(),
{
    if a.len() == 0 {
        assert(a + b =~= b);
        assert(escape(a) =~= Seq::<char>::empty());
        assert(escape(a) + escape(b) =~= escape(b));
    } else {
        assert((a + b)[0] == a[0]);
        assert((a + b).skip(1) =~= a.skip(1) + b);
        lemma_escape_add(a.skip(1), b);
        assert(escape_char(a[0]) + (escape(a.skip(1)) + escape(b)) =~= (escape_char(a[0]) + escape(
            a.skip(1),
        )) + escape(b));
    }
}

fn append_escaped(out: &mut String, s: &str)
    ensures
        final(out)@ == old(out)@ + escape(s@),
{
    let ghost orig = out@;
    let len = s.unicode_len();
    let mut i: usize = 0;
    proof {
        assert(escape(s@.subrange(0, 0)) =~= Seq::<char>::empty());
        assert(out@ =~= orig + escape(s@.subrange(0, 0)));
    }
    while i < len
        invariant
            i <= len,
            len == s@.len(),
            out@ == orig + escape(s@.subrange(0, i as int)),
        decreases len - i,
    {
        let c = s.get_char(i);
        proof {
            assert(s@.subrange(0, i + 1) =~= s@.subrange(0, i as int) + seq![c]);
            lemma_escape_add(s@.subrange(0, i as int), seq![c]);
            assert(seq![c][0] == c);
            assert(seq![c].skip(1) =~= Seq::<char>::empty());
            assert(escape(seq![c]) == escape_char(c) + escape(Seq::<char>::empty()));
            assert(escape(Seq::<char>::empty()) =~= Seq::<char>::empty());
            assert(escape(seq![c]) =~= escape_char(c));
        }
        if c == '"' {
            out.append("\\\"");
            proof {
                reveal_strlit("\\\"");
                assert(("\\\"")@ =~= escape_char(c));
            }
        } else if c == '\\' {
            out.append("\\\\");
            proof {
                reveal_strlit("\\\\");
                assert(("\\\\")@ =~= escape_char(c));
            }
        } else {
            let piece = s.substring_char(i, i + 1);
            out.append(piece);
            proof {
                assert(piece@ =~= escape_char(c));
            }
        }
        proof {
            assert(out@ =~= orig + escape(s@.subrange(0, i + 1)));
        }
        i = i + 1;
    }
    proof {
        assert(s@.subrange(0, len as int) =~= s@);
    }
}

fn append_string_token(out: &mut String, s: &str)
    ensures
        final(out)@ == old(out)@ + render_string(s@),
{
    let ghost orig = out@;
    proof {
        reveal_strlit("\"");
    }
    out.append("\"");
    append_escaped(out, s);
    out.append("\"");
    proof {
        assert(out@ =~= orig + render_string(s@));
    }
}

fn append_i64(out: &mut String, t: i64)
    ensures
        final(out)@ == old(out)@ + render_int(t as int),
{
    let ghost orig = out@;
    if t < 0 {
        proof {
            reveal_strlit("-");
        }
        out.append("-");
        let mag: u64 = if t == i64::MIN {
            9223372036854775808u64
        } else {
            (-t) as u64
        };
        let d = crate::ids::dec_string(mag);
        out.append(d.as_str());
        proof {
            assert(mag as nat == (-(t as int)) as nat);
            assert(out@ =~= orig + render_int(t as int));
        }
    } else {
        let d = crate::ids::dec_string(t as u64);
        out.append(d.as_str());
    }
}

fn append_usize(out: &mut String, n: usize)
    ensures
        final(out)@ == old(out)@ + render_int(n as int),
{
    let d = crate::ids::dec_string(n as u64);
    out.append(d.as_str());
}

#[verifier::rlimit(100)]
fn append_checkpoint(out: &mut String, c: &Checkpoint)
    ensures
        final(out)@ == old(out)@ + render_checkpoint(c@),
{
    let ghost orig = out@;
    proof {
        reveal_strlit("  {\"id\": ");
        reveal_strlit(", \"name\": ");
        reveal_strlit(", \"timestamp\": ");
        reveal_strlit(", \"commit_hash\": ");
        reveal_strlit("null");
        reveal_strlit(", \"session_id\": ");
        reveal_strlit(", \"file_count\": ");
        reveal_strlit("}");
    }
    out.append("  {\"id\": ");
    proof {
        assert(("  {\"id\": ")@ =~= open_key(key_id()));
    }
    append_string_token(out, c.id.as_str());
    out.append(", \"name\": ");
    proof {
        assert((", \"name\": ")@ =~= next_key(key_name()));
    }
    append_string_token(out, c.name.as_str());
    out.append(", \"timestamp\": ");
    proof {
        assert((", \"timestamp\": ")@ =~= next_key(key_timestamp()));
    }
    append_i64(out, c.timestamp);
    out.append(", \"commit_hash\": ");
    proof {
        assert((", \"commit_hash\": ")@ =~= next_key(key_commit_hash()));
    }
    match &c.commit_hash {
        None => {
            out.append("null");
            proof {
                assert(("null")@ =~= null_lit());
            }
        },
        Some(h) => {
            append_string_token(out, h.as_str());
        },
    }
    out.append(", \"session_id\": ");
    proof {
        assert((", \"session_id\": ")@ =~= next_key(key_session_id()));
    }
    append_string_token(out, c.session_id.as_str());
    out.append(", \"file_count\": ");
    proof {
        assert((", \"file_count\": ")@ =~= next_key(key_file_count()));
    }
    append_usize(out, c.file_count);
    out.append("}");
    proof {
        assert(("}")@ =~= seq!['}']);
        assert(out@ =~= orig + render_checkpoint(c@));
    }
}

#[verifier::rlimit(100)]
fn append_session(out: &mut String, v: &Session)
    ensures
        final(out)@ == old(out)@ + render_session(v@),
{
    let ghost orig = out@;
    proof {
        reveal_strlit("  {\"id\": ");
        reveal_strlit(", \"name\": ");
        reveal_strlit(", \"start_time\": ");
        reveal_strlit(", \"end_time\": ");
        reveal_strlit("null");
        reveal_strlit("}");
    }
    out.append("  {\"id\": ");
    proof {
        assert(("  {\"id\": ")@ =~= open_key(key_id()));
    }
    append_string_token(out, v.id.as_str());
    out.append(", \"name\": ");
    proof {
        assert((", \"name\": ")@ =~= next_key(key_name()));
    }
    append_string_token(out, v.name.as_str());
    out.append(", \"start_time\": ");
    proof {
        assert((", \"start_time\": ")@ =~= next_key(key_start_time()));
    }
    append_i64(out, v.start_time);
    out.append(", \"end_time\": ");
    proof {
        assert((", \"end_time\": ")@ =~= next_key(key_end_time()));
    }
    match v.end_time {
        None => {
            out.append("null");
            proof {
                assert(("null")@ =~= null_lit());
            }
        },
        Some(t) => {
            append_i64(out, t);
        },
    }
    out.append("}");
    proof {
        assert(("}")@ =~= seq!['}']);
        assert(out@ =~= orig + render_session(v@));
    }
}

proof fn lemma_checkpoint_items_snoc(cs: Seq<CheckpointView>, c: CheckpointView)
    requires
        cs.len() >= 1,
    ensures
        render_checkpoint_items(cs.push(c)) == render_checkpoint_items(cs) + (seq![',', '\n']
            + render_checkpoint(c)),
    decreases cs.len(),
{
    let p = cs.push(c);
    assert(p[0] == cs[0]);
    if cs.len() == 1 {
        assert(p.skip(1) =~= seq![c]);
        assert(render_checkpoint_items(seq![c]) == render_checkpoint(c));
    } else {
        assert(p.skip(1) =~= cs.skip(1).push(c));
        lemma_checkpoint_items_snoc(cs.skip(1), c);
        assert(render_checkpoint_items(p) =~= render_checkpoint_items(cs) + (seq![',', '\n']
            + render_checkpoint(c)));
    }
}

proof fn lemma_session_items_snoc(vs: Seq<SessionView>, v: SessionView)
    requires
        vs.len() >= 1,
    ensures
        render_session_items(vs.push(v)) == render_session_items(vs) + (seq![',', '\n']
            + render_session(v)),
    decreases vs.len(),
{
    let p = vs.push(v);
    assert(p[0] == vs[0]);
    if vs.len() == 1 {
        assert(p.skip(1) =~= seq![v]);
        assert(render_session_items(seq![v]) == render_session(v));
    } else {
        assert(p.skip(1) =~= vs.skip(1).push(v));
        lemma_session_items_snoc(vs.skip(1), v);
        assert(render_session_items(p) =~= render_session_items(vs) + (seq![',', '\n']
            + render_session(v)));
    }
}

/// Renders the checkpoint collection as its persisted document.
pub fn render_checkpoints(cs: &Vec<Checkpoint>) -> (r: String)
    ensures
        r@ == render_checkpoints_doc(cps_view(cs@)),
{
    let n = cs.len();
    if n == 0 {
        proof {
            reveal_strlit("[]");
        }
        let r = String::from_str("[]");
        proof {
            assert(r@ =~= seq!['[', ']']);
        }
        r
    } else {
        proof {
            reveal_strlit("[\n");
        }
        let mut out = String::from_str("[\n");
        proof {
            assert(out@ =~= seq!['[', '\n']);
        }
        let mut i: usize = 0;
        while i < n
            invariant
                i <= n,
                n == cs@.len(),
                i == 0 ==> out@ == seq!['[', '\n'],
                i >= 1 ==> out@ == seq!['[', '\n'] + render_checkpoint_items(
                    cps_view(cs@).subrange(0, i as int),
                ),
            decreases n - i,
        {
            let ghost pre = cps_view(cs@).subrange(0, i as int);
            let ghost ext = cps_view(cs@).subrange(0, i + 1);
            proof {
                assert(cps_view(cs@)[i as int] == cs@[i as int]@);
            }
            if i > 0 {
                proof {
                    reveal_strlit(",\n");
                }
                out.append(",\n");
                append_checkpoint(&mut out, &cs[i]);
            } else {
                append_checkpoint(&mut out, &cs[i]);
            }
            proof {
                if i == 0 {
                    assert(ext =~= seq![cps_view(cs@)[0]]);
                    assert(render_checkpoint_items(ext) == render_checkpoint(cps_view(cs@)[0]));
                    assert(out@ =~= seq!['[', '\n'] + render_checkpoint_items(ext));
                } else {
                    assert(ext =~= pre.push(cps_view(cs@)[i as int]));
                    lemma_checkpoint_items_snoc(pre, cps_view(cs@)[i as int]);
                    assert(out@ =~= seq!['[', '\n'] + render_checkpoint_items(ext));
                }
            }
            i = i + 1;
        }
        proof {
            reveal_strlit("\n]");
            assert(cps_view(cs@).subrange(0, n as int) =~= cps_view(cs@));
        }
        out.append("\n]");
        proof {
            assert(out@ =~= render_checkpoints_doc(cps_view(cs@)));
        }
        out
    }
}

/// Renders the session collection as its persisted document.
pub fn render_sessions(vs: &Vec<Session>) -> (r: String)
    ensures
        r@ == render_sessions_doc(sessions_view(vs@)),
{
    let n = vs.len();
    if n == 0 {
        proof {
            reveal_strlit("[]");
        }
        let r = String::from_str("[]");
        proof {
            assert(r@ =~= seq!['[', ']']);
        }
        r
    } else {
        proof {
            reveal_strlit("[\n");
        }
        let mut out = String::from_str("[\n");
        proof {
            assert(out@ =~= seq!['[', '\n']);
        }
        let mut i: usize = 0;
        while i < n
            invariant
                i <= n,
                n == vs@.len(),
                i == 0 ==> out@ == seq!['[', '\n'],
                i >= 1 ==> out@ == seq!['[', '\n'] + render_session_items(
                    sessions_view(vs@).subrange(0, i as int),
                ),
            decreases n - i,
        {
            let ghost pre = sessions_view(vs@).subrange(0, i as int);
            let ghost ext = sessions_view(vs@).subrange(0, i + 1);
            proof {
                assert(sessions_view(vs@)[i as int] == vs@[i as int]@);
            }
            if i > 0 {
                proof {
                    reveal_strlit(",\n");
                }
                out.append(",\n");
                append_session(&mut out, &vs[i]);
            } else {
                append_session(&mut out, &vs[i]);
            }
            proof {
                if i == 0 {
                    assert(ext =~= seq![sessions_view(vs@)[0]]);
                    assert(render_session_items(ext) == render_session(sessions_view(vs@)[0]));
                    assert(out@ =~= seq!['[', '\n'] + render_session_items(ext));
                } else {
                    assert(ext =~= pre.push(sessions_view(vs@)[i as int]));
                    lemma_session_items_snoc(pre, sessions_view(vs@)[i as int]);
                    assert(out@ =~= seq!['[', '\n'] + render_session_items(ext));
                }
            }
            i = i + 1;
        }
        proof {
            reveal_strlit("\n]");
            assert(sessions_view(vs@).subrange(0, n as int) =~= sessions_view(vs@));
        }
        out.append("\n]");
        proof {
            assert(out@ =~= render_sessions_doc(sessions_view(vs@)));
        }
        out
    }
}

// -------------------------------------------------------------- exec parser

/// A decoded prefix glued onto the outcome of parsing the remainder.
pub open spec fn prepend_decoded(pre: Seq<char>, p: Option<(Seq<char>, Seq<char>)>) -> Option<
    (Seq<char>, Seq<char>),
> {
    match p {
        Some(q) => Some((pre + q.0, q.1)),
        None => None,
    }
}

proof fn lemma_prepend_empty(p: Option<(Seq<char>, Seq<char>)>)
    ensures
        prepend_decoded(Seq::empty(), p) == p,
{
    match p {
        Some(q) => {
            assert(Seq::<char>::empty() + q.0 =~= q.0);
        },
        None => {},
    }
}

proof fn lemma_prepend_assoc(a: Seq<char>, b: Seq<char>, p: Option<(Seq<char>, Seq<char>)>)
    ensures
        prepend_decoded(a, prepend_decoded(b, p)) == prepend_decoded(a + b, p),
{
    match p {
        Some(q) => {
            assert(a + (b + q.0) =~= (a + b) + q.0);
        },
        None => {},
    }
}

fn p_lit(s: &str, i: usize, lit: &str) -> (r: Option<usize>)
    requires
        i <= s@.len(),
    ensures
        match r {
            Some(j) => i <= j <= s@.len() && parse_lit(s@.skip(i as int), lit@) == Some(
                s@.skip(j as int),
            ),
            None => parse_lit(s@.skip(i as int), lit@) is None,
        },
{
    let n = s.unicode_len();
    let m = lit.unicode_len();
    if n - i < m {
        return None;
    }
    let mut k: usize = 0;
    while k < m
        invariant
            k <= m,
            m == lit@.len(),
            n == s@.len(),
            i <= n,
            m <= n - i,
            forall|q: int| 0 <= q < k ==> s@.skip(i as int)[q] == lit@[q],
        decreases m - k,
    {
        if s.get_char(i + k) != lit.get_char(k) {
            proof {
                assert(s@.skip(i as int)[k as int] == s@[i + k]);
                if parse_lit(s@.skip(i as int), lit@) is Some {
                    assert(s@.skip(i as int).subrange(0, m as int)[k as int] == lit@[k as int]);
                }
            }
            return None;
        }
        proof {
            assert(s@.skip(i as int)[k as int] == s@[i + k]);
        }
        k = k + 1;
    }
    proof {
        assert(s@.skip(i as int).subrange(0, m as int) =~= lit@);
        assert(s@.skip(i as int).skip(m as int) =~= s@.skip(i as int + m as int));
    }
    Some(i + m)
}

fn p_string(s: &str, i: usize) -> (r: Option<(String, usize)>)
    requires
        i <= s@.len(),
    ensures
        match r {
            Some(p) => p.1 <= s@.len() && parse_string(s@.skip(i as int)) == Some(
                (p.0@, s@.skip(p.1 as int)),
            ),
            None => parse_string(s@.skip(i as int)) is None,
        },
{
    let n = s.unicode_len();
    if i >= n || s.get_char(i) != '"' {
        proof {
            if i < n {
                assert(s@.skip(i as int)[0] == s@[i as int]);
            }
        }
        return None;
    }
    proof {
        assert(s@.skip(i as int)[0] == '"');
        assert(s@.skip(i as int).skip(1) =~= s@.skip(i as int + 1));
    }
    let mut out = String::new();
    let mut k: usize = i + 1;
    proof {
        lemma_prepend_empty(parse_string_body(s@.skip(i as int + 1)));
    }
    while k < n
        invariant
            i + 1 <= k <= n,
            n == s@.len(),
            s@[i as int] == '"',
            parse_string(s@.skip(i as int)) == parse_string_body(s@.skip(i as int + 1)),
            parse_string_body(s@.skip(i as int + 1)) == prepend_decoded(
                out@,
                parse_string_body(s@.skip(k as int)),
            ),
        decreases n - k,
    {
        let c = s.get_char(k);
        proof {
            assert(s@.skip(k as int)[0] == c);
        }
        if c == '"' {
            proof {
                assert(s@.skip(k as int).skip(1) =~= s@.skip(k as int + 1));
                assert(out@ + Seq::<char>::empty() =~= out@);
            }
            return Some((out, k + 1));
        } else if c == '\\' {
            if k + 1 >= n {
                proof {
                    assert(s@.skip(k as int).len() < 2);
                }
                return None;
            }
            let c2 = s.get_char(k + 1);
            proof {
                assert(s@.skip(k as int)[1] == c2);
            }
            if c2 == '"' || c2 == '\\' {
                let ghost preout = out@;
                if c2 == '"' {
                    proof {
                        reveal_strlit("\"");
                    }
                    out.append("\"");
                } else {
                    proof {
                        reveal_strlit("\\");
                    }
                    out.append("\\");
                }
                proof {
                    assert(out@ =~= preout + seq![c2]);
                    assert(s@.skip(k as int).skip(2) =~= s@.skip(k as int + 2));
                    assert(parse_string_body(s@.skip(k as int)) == prepend_decoded(
                        seq![c2],
                        parse_string_body(s@.skip(k as int + 2)),
                    ));
                    lemma_prepend_assoc(
                        preout,
                        seq![c2],
                        parse_string_body(s@.skip(k as int + 2)),
                    );
                }
                k = k + 2;
            } else {
                return None;
            }
        } else {
            let ghost preout = out@;
            let piece = s.substring_char(k, k + 1);
            out.append(piece);
            proof {
                assert(piece@ =~= seq![c]);
                assert(out@ =~= preout + seq![c]);
                assert(s@.skip(k as int).skip(1) =~= s@.skip(k as int + 1));
                assert(parse_string_body(s@.skip(k as int)) == prepend_decoded(
                    seq![c],
                    parse_string_body(s@.skip(k as int + 1)),
                ));
                lemma_prepend_assoc(preout, seq![c], parse_string_body(s@.skip(k as int + 1)));
            }
            k = k + 1;
        }
    }
    proof {
        assert(s@.skip(k as int).len() == 0);
    }
    None
}

fn p_u64(s: &str, i: usize) -> (r: (Option<u64>, usize))
    requires
        i <= s@.len(),
    ensures
        ({
            let d = parse_digits(s@.skip(i as int));
            &&& i <= r.1 <= s@.len()
            &&& d.0 == s@.subrange(i as int, r.1 as int)
            &&& d.1 == s@.skip(r.1 as int)
            &&& match r.0 {
                Some(v) => v as nat == dec_val(d.0),
                None => dec_val(d.0) > u64::MAX,
            }
        }),
{
    let n = s.unicode_len();
    let mut k: usize = i;
    let mut acc: u64 = 0;
    let mut big = false;
    let mut stop = false;
    proof {
        assert(s@.subrange(i as int, i as int) =~= Seq::<char>::empty());
    }
    while k < n && !stop
        invariant
            i <= k <= n,
            n == s@.len(),
            all_digits(s@.subrange(i as int, k as int)),
            !big ==> acc as nat == dec_val(s@.subrange(i as int, k as int)),
            big ==> dec_val(s@.subrange(i as int, k as int)) > u64::MAX,
            stop ==> k < n && !is_digit(s@[k as int]),
        decreases n - k, (if stop { 0int } else { 1 }),
    {
        let c = s.get_char(k);
        let d = crate::ids::char_digit(c);
        if d >= 10 {
            stop = true;
        } else {
            proof {
                let pre = s@.subrange(i as int, k as int);
                let ext = s@.subrange(i as int, k as int + 1);
                assert(ext.drop_last() =~= pre);
                assert(ext.last() == c);
                assert(dec_val(ext) == dec_val(pre) * 10 + d);
                assert(forall|q: int| 0 <= q < ext.len() ==> is_digit(#[trigger] ext[q]));
                vstd::arithmetic::div_mod::lemma_fundamental_div_mod(u64::MAX - d, 10);
            }
            if !big {
                let limit = (u64::MAX - d) / 10;
                if acc > limit {
                    big = true;
                } else {
                    acc = acc * 10 + d;
                }
            }
            k = k + 1;
        }
    }
    proof {
        assert(s@.skip(k as int).len() == 0 || !is_digit(s@.skip(k as int)[0]));
        assert(s@.skip(i as int) =~= s@.subrange(i as int, k as int) + s@.skip(k as int));
        lemma_parse_digits_rt(s@.subrange(i as int, k as int), s@.skip(k as int));
    }
    if big {
        (None, k)
    } else {
        (Some(acc), k)
    }
}

/// `parse_int` succeeds here but the machine type cannot hold the value.
pub open spec fn int_out_of_range(s: Seq<char>) -> bool {
    match parse_int(s) {
        None => false,
        Some(p) => !ts_in_range(p.0),
    }
}

pub open spec fn count_out_of_range(s: Seq<char>) -> bool {
    match parse_int(s) {
        None => false,
        Some(p) => !count_in_range(p.0),
    }
}

fn p_i64(s: &str, i: usize) -> (r: Option<(i64, usize)>)
    requires
        i <= s@.len(),
    ensures
        match r {
            Some(p) => p.1 <= s@.len() && parse_int(s@.skip(i as int)) == Some(
                (p.0 as int, s@.skip(p.1 as int)),
            ),
            None => parse_int(s@.skip(i as int)) is None || int_out_of_range(s@.skip(i as int)),
        },
{
    let n = s.unicode_len();
    if i < n && s.get_char(i) == '-' {
        proof {
            assert(s@.skip(i as int)[0] == '-');
            assert(s@.skip(i as int).skip(1) =~= s@.skip(i as int + 1));
        }
        let (v, j) = p_u64(s, i + 1);
        if j == i + 1 {
            proof {
                assert(s@.subrange(i as int + 1, j as int) =~= Seq::<char>::empty());
            }
            return None;
        }
        match v {
            None => None,
            Some(v) => {
                if v > 9223372036854775808u64 {
                    None
                } else if v == 9223372036854775808u64 {
                    Some((i64::MIN, j))
                } else {
                    Some((-(v as i64), j))
                }
            },
        }
    } else {
        proof {
            if i < n {
                assert(s@.skip(i as int)[0] == s@[i as int]);
            }
        }
        let (v, j) = p_u64(s, i);
        if j == i {
            proof {
                assert(s@.subrange(i as int, j as int) =~= Seq::<char>::empty());
            }
            return None;
        }
        match v {
            None => None,
            Some(v) => {
                if v > i64::MAX as u64 {
                    None
                } else {
                    Some((v as i64, j))
                }
            },
        }
    }
}

fn p_count(s: &str, i: usize) -> (r: Option<(usize, usize)>)
    requires
        i <= s@.len(),
    ensures
        match r {
            Some(p) => p.1 <= s@.len() && parse_int(s@.skip(i as int)) == Some(
                (p.0 as int, s@.skip(p.1 as int)),
            ),
            None => parse_int(s@.skip(i as int)) is None || count_out_of_range(s@.skip(i as int)),
        },
{
    let n = s.unicode_len();
    if i < n && s.get_char(i) == '-' {
        proof {
            assert(s@.skip(i as int)[0] == '-');
            assert(s@.skip(i as int).skip(1) =~= s@.skip(i as int + 1));
        }
        let (v, j) = p_u64(s, i + 1);
        if j == i + 1 {
            proof {
                assert(s@.subrange(i as int + 1, j as int) =~= Seq::<char>::empty());
            }
            return None;
        }
        match v {
            None => None,
            Some(v) => {
                if v == 0 {
                    Some((0, j))
                } else {
                    None
                }
            },
        }
    } else {
        proof {
            if i < n {
                assert(s@.skip(i as int)[0] == s@[i as int]);
            }
        }
        let (v, j) = p_u64(s, i);
        if j == i {
            proof {
                assert(s@.subrange(i as int, j as int) =~= Seq::<char>::empty());
            }
            return None;
        }
        match v {
            None => None,
            Some(v) => {
                if v > usize::MAX as u64 {
                    None
                } else {
                    Some((v as usize, j))
                }
            },
        }
    }
}

fn p_opt_string(s: &str, i: usize) -> (r: Option<(Option<String>, usize)>)
    requires
        i <= s@.len(),
    ensures
        match r {
            Some(p) => p.1 <= s@.len() && parse_opt_string(s@.skip(i as int)) == Some(
                (
                    match p.0 {
                        Some(x) => Some(x@),
                        None => None,
                    },
                    s@.skip(p.1 as int),
                ),
            ),
            None => parse_opt_string(s@.skip(i as int)) is None,
        },
{
    proof {
        reveal_strlit("null");
        assert(("null")@ =~= null_lit());
    }
    match p_lit(s, i, "null") {
        Some(j) => Some((None, j)),
        None => match p_string(s, i) {
            Some((x, j)) => Some((Some(x), j)),
            None => None,
        },
    }
}

fn p_opt_i64(s: &str, i: usize) -> (r: Option<(Option<i64>, usize)>)
    requires
        i <= s@.len(),
    ensures
        match r {
            Some(p) => p.1 <= s@.len() && parse_opt_int(s@.skip(i as int)) == Some(
                (
                    match p.0 {
                        Some(t) => Some(t as int),
                        None => None,
                    },
                    s@.skip(p.1 as int),
                ),
            ),
            None => parse_opt_int(s@.skip(i as int)) is None || (parse_lit(
                s@.skip(i as int),
                null_lit(),
            ) is None && int_out_of_range(s@.skip(i as int))),
        },
{
    proof {
        reveal_strlit("null");
        assert(("null")@ =~= null_lit());
    }
    match p_lit(s, i, "null") {
        Some(j) => Some((None, j)),
        None => match p_i64(s, i) {
            Some((t, j)) => Some((Some(t), j)),
            None => None,
        },
    }
}

#[verifier::rlimit(100)]
fn p_checkpoint(s: &str, i: usize) -> (r: Option<(Checkpoint, usize)>)
    requires
        i <= s@.len(),
    ensures
        match r {
            Some(p) => p.1 <= s@.len() && parse_checkpoint(s@.skip(i as int)) == Some(
                (p.0@, s@.skip(p.1 as int)),
            ),
            None => parse_checkpoint(s@.skip(i as int)) is None,
        },
{
    let j0 = match p_lit(s, i, "  {\"id\": ") {
        Some(j) => j,
        None => {
            proof {
                reveal_strlit("  {\"id\": ");
                assert(("  {\"id\": ")@ =~= open_key(key_id()));
            }
            return None;
        },
    };
    proof {
        reveal_strlit("  {\"id\": ");
        assert(("  {\"id\": ")@ =~= open_key(key_id()));
    }
    let (id, j1) = match p_string(s, j0) {
        Some(p) => p,
        None => {
            return None;
        },
    };
    let j2 = match p_lit(s, j1, ", \"name\": ") {
        Some(j) => j,
        None => {
            proof {
                reveal_strlit(", \"name\": ");
                assert((", \"name\": ")@ =~= next_key(key_name()));
            }
            return None;
        },
    };
    proof {
        reveal_strlit(", \"name\": ");
        assert((", \"name\": ")@ =~= next_key(key_name()));
    }
    let (name, j3) = match p_string(s, j2) {
        Some(p) => p,
        None => {
            return None;
        },
    };
    let j4 = match p_lit(s, j3, ", \"timestamp\": ") {
        Some(j) => j,
        None => {
            proof {
                reveal_strlit(", \"timestamp\": ");
                assert((", \"timestamp\": ")@ =~= next_key(key_timestamp()));
            }
            return None;
        },
    };
    proof {
        reveal_strlit(", \"timestamp\": ");
        assert((", \"timestamp\": ")@ =~= next_key(key_timestamp()));
    }
    let (ts, j5) = match p_i64(s, j4) {
        Some(p) => p,
        None => {
            return None;
        },
    };
    let j6 = match p_lit(s, j5, ", \"commit_hash\": ") {
        Some(j) => j,
        None => {
            proof {
                reveal_strlit(", \"commit_hash\": ");
                assert((", \"commit_hash\": ")@ =~= next_key(key_commit_hash()));
            }
            return None;
        },
    };
    proof {
        reveal_strlit(", \"commit_hash\": ");
        assert((", \"commit_hash\": ")@ =~= next_key(key_commit_hash()));
    }
    let (hash, j7) = match p_opt_string(s, j6) {
        Some(p) => p,
        None => {
            return None;
        },
    };
    let j8 = match p_lit(s, j7, ", \"session_id\": ") {
        Some(j) => j,
        None => {
            proof {
                reveal_strlit(", \"session_id\": ");
                assert((", \"session_id\": ")@ =~= next_key(key_session_id()));
            }
            return None;
        },
    };
    proof {
        reveal_strlit(", \"session_id\": ");
        assert((", \"session_id\": ")@ =~= next_key(key_session_id()));
    }
    let (sid, j9) = match p_string(s, j8) {
        Some(p) => p,
        None => {
            return None;
        },
    };
    let j10 = match p_lit(s, j9, ", \"file_count\": ") {
        Some(j) => j,
        None => {
            proof {
                reveal_strlit(", \"file_count\": ");
                assert((", \"file_count\": ")@ =~= next_key(key_file_count()));
            }
            return None;
        },
    };
    proof {
        reveal_strlit(", \"file_count\": ");
        assert((", \"file_count\": ")@ =~= next_key(key_file_count()));
    }
    let (fc, j11) = match p_count(s, j10) {
        Some(p) => p,
        None => {
            return None;
        },
    };
    let j12 = match p_lit(s, j11, "}") {
        Some(j) => j,
        None => {
            proof {
                reveal_strlit("}");
                assert(("}")@ =~= seq!['}']);
            }
            return None;
        },
    };
    proof {
        reveal_strlit("}");
        assert(("}")@ =~= seq!['}']);
    }
    let cp = Checkpoint {
        id,
        name,
        timestamp: ts,
        commit_hash: hash,
        session_id: sid,
        file_count: fc,
    };
    Some((cp, j12))
}

#[verifier::rlimit(100)]
fn p_session(s: &str, i: usize) -> (r: Option<(Session, usize)>)
    requires
        i <= s@.len(),
    ensures
        match r {
            Some(p) => p.1 <= s@.len() && parse_session(s@.skip(i as int)) == Some(
                (p.0@, s@.skip(p.1 as int)),
            ),
            None => parse_session(s@.skip(i as int)) is None,
        },
{
    let j0 = match p_lit(s, i, "  {\"id\": ") {
        Some(j) => j,
        None => {
            proof {
                reveal_strlit("  {\"id\": ");
                assert(("  {\"id\": ")@ =~= open_key(key_id()));
            }
            return None;
        },
    };
    proof {
        reveal_strlit("  {\"id\": ");
        assert(("  {\"id\": ")@ =~= open_key(key_id()));
    }
    let (id, j1) = match p_string(s, j0) {
        Some(p) => p,
        None => {
            return None;
        },
    };
    let j2 = match p_lit(s, j1, ", \"name\": ") {
        Some(j) => j,
        None => {
            proof {
                reveal_strlit(", \"name\": ");
                assert((", \"name\": ")@ =~= next_key(key_name()));
            }
            return None;
        },
    };
    proof {
        reveal_strlit(", \"name\": ");
        assert((", \"name\": ")@ =~= next_key(key_name()));
    }
    let (name, j3) = match p_string(s, j2) {
        Some(p) => p,
        None => {
            return None;
        },
    };
    let j4 = match p_lit(s, j3, ", \"start_time\": ") {
        Some(j) => j,
        None => {
            proof {
                reveal_strlit(", \"start_time\": ");
                assert((", \"start_time\": ")@ =~= next_key(key_start_time()));
            }
            return None;
        },
    };
    proof {
        reveal_strlit(", \"start_time\": ");
        assert((", \"start_time\": ")@ =~= next_key(key_start_time()));
    }
    let (st, j5) = match p_i64(s, j4) {
        Some(p) => p,
        None => {
            return None;
        },
    };
    let j6 = match p_lit(s, j5, ", \"end_time\": ") {
        Some(j) => j,
        None => {
            proof {
                reveal_strlit(", \"end_time\": ");
                assert((", \"end_time\": ")@ =~= next_key(key_end_time()));
            }
            return None;
        },
    };
    proof {
        reveal_strlit(", \"end_time\": ");
        assert((", \"end_time\": ")@ =~= next_key(key_end_time()));
    }
    let (et, j7) = match p_opt_i64(s, j6) {
        Some(p) => p,
        None => {
            return None;
        },
    };
    let j8 = match p_lit(s, j7, "}") {
        Some(j) => j,
        None => {
            proof {
                reveal_strlit("}");
                assert(("}")@ =~= seq!['}']);
            }
            return None;
        },
    };
    proof {
        reveal_strlit("}");
        assert(("}")@ =~= seq!['}']);
    }
    let v = Session { id, name, start_time: st, end_time: et };
    Some((v, j8))
}

pub open spec fn prepend_cps(
    pre: Seq<CheckpointView>,
    p: Option<(Seq<CheckpointView>, Seq<char>)>,
) -> Option<(Seq<CheckpointView>, Seq<char>)> {
    match p {
        Some(q) => Some((pre + q.0, q.1)),
        None => None,
    }
}

pub open spec fn prepend_sessions(
    pre: Seq<SessionView>,
    p: Option<(Seq<SessionView>, Seq<char>)>,
) -> Option<(Seq<SessionView>, Seq<char>)> {
    match p {
        Some(q) => Some((pre + q.0, q.1)),
        None => None,
    }
}

proof fn lemma_prepend_cps_empty(p: Option<(Seq<CheckpointView>, Seq<char>)>)
    ensures
        prepend_cps(Seq::empty(), p) == p,
{
    match p {
        Some(q) => {
            assert(Seq::<CheckpointView>::empty() + q.0 =~= q.0);
        },
        None => {},
    }
}

proof fn lemma_prepend_cps_assoc(
    a: Seq<CheckpointView>,
    b: Seq<CheckpointView>,
    p: Option<(Seq<CheckpointView>, Seq<char>)>,
)
    ensures
        prepend_cps(a, prepend_cps(b, p)) == prepend_cps(a + b, p),
{
    match p {
        Some(q) => {
            assert(a + (b + q.0) =~= (a + b) + q.0);
        },
        None => {},
    }
}

proof fn lemma_prepend_sessions_empty(p: Option<(Seq<SessionView>, Seq<char>)>)
    ensures
        prepend_sessions(Seq::empty(), p) == p,
{
    match p {
        Some(q) => {
            assert(Seq::<SessionView>::empty() + q.0 =~= q.0);
        },
        None => {},
    }
}

proof fn lemma_prepend_sessions_assoc(
    a: Seq<SessionView>,
    b: Seq<SessionView>,
    p: Option<(Seq<SessionView>, Seq<char>)>,
)
    ensures
        prepend_sessions(a, prepend_sessions(b, p)) == prepend_sessions(a + b, p),
{
    match p {
        Some(q) => {
            assert(a + (b + q.0) =~= (a + b) + q.0);
        },
        None => {},
    }
}

#[verifier::rlimit(100)]
fn p_checkpoint_items(s: &str, i: usize, fuel: usize) -> (r: Option<(Vec<Checkpoint>, usize)>)
    requires
        i <= s@.len(),
    ensures
        match r {
            Some(p) => p.1 <= s@.len() && parse_checkpoint_items(s@.skip(i as int), fuel as nat)
                == Some((cps_view(p.0@), s@.skip(p.1 as int))),
            None => parse_checkpoint_items(s@.skip(i as int), fuel as nat) is None,
        },
{
    let mut out: Vec<Checkpoint> = Vec::new();
    let mut pos = i;
    let mut f = fuel;
    proof {
        lemma_prepend_cps_empty(parse_checkpoint_items(s@.skip(i as int), fuel as nat));
        assert(cps_view(out@) =~= Seq::<CheckpointView>::empty());
    }
    loop
        invariant
            pos <= s@.len(),
            f <= fuel,
            parse_checkpoint_items(s@.skip(i as int), fuel as nat) == prepend_cps(
                cps_view(out@),
                parse_checkpoint_items(s@.skip(pos as int), f as nat),
            ),
        decreases f,
    {
        if f == 0 {
            return None;
        }
        match p_checkpoint(s, pos) {
            None => {
                return None;
            },
            Some((c, j)) => {
                let ghost pre_out = cps_view(out@);
                let ghost cv = c@;
                out.push(c);
                proof {
                    assert(cps_view(out@) =~= pre_out + seq![cv]);
                }
                let n = s.unicode_len();
                if j < n && s.get_char(j) == ',' {
                    proof {
                        assert(s@.skip(j as int)[0] == ',');
                        reveal_strlit(",\n");
                        assert((",\n")@ =~= seq![',', '\n']);
                    }
                    match p_lit(s, j, ",\n") {
                        None => {
                            return None;
                        },
                        Some(j2) => {
                            proof {
                                assert(parse_checkpoint_items(s@.skip(pos as int), f as nat)
                                    == prepend_cps(
                                    seq![cv],
                                    parse_checkpoint_items(s@.skip(j2 as int), (f - 1) as nat),
                                ));
                                lemma_prepend_cps_assoc(
                                    pre_out,
                                    seq![cv],
                                    parse_checkpoint_items(s@.skip(j2 as int), (f - 1) as nat),
                                );
                            }
                            pos = j2;
                            f = f - 1;
                        },
                    }
                } else {
                    proof {
                        if j < s@.len() {
                            assert(s@.skip(j as int)[0] == s@[j as int]);
                        }
                        assert(parse_checkpoint_items(s@.skip(pos as int), f as nat) == Some(
                            (seq![cv], s@.skip(j as int)),
                        ));
                        assert(pre_out + seq![cv] =~= cps_view(out@));
                    }
                    return Some((out, j));
                }
            },
        }
    }
}

#[verifier::rlimit(100)]
fn p_session_items(s: &str, i: usize, fuel: usize) -> (r: Option<(Vec<Session>, usize)>)
    requires
        i <= s@.len(),
    ensures
        match r {
            Some(p) => p.1 <= s@.len() && parse_session_items(s@.skip(i as int), fuel as nat)
                == Some((sessions_view(p.0@), s@.skip(p.1 as int))),
            None => parse_session_items(s@.skip(i as int), fuel as nat) is None,
        },
{
    let mut out: Vec<Session> = Vec::new();
    let mut pos = i;
    let mut f = fuel;
    proof {
        lemma_prepend_sessions_empty(parse_session_items(s@.skip(i as int), fuel as nat));
        assert(sessions_view(out@) =~= Seq::<SessionView>::empty());
    }
    loop
        invariant
            pos <= s@.len(),
            f <= fuel,
            parse_session_items(s@.skip(i as int), fuel as nat) == prepend_sessions(
                sessions_view(out@),
                parse_session_items(s@.skip(pos as int), f as nat),
            ),
        decreases f,
    {
        if f == 0 {
            return None;
        }
        match p_session(s, pos) {
            None => {
                return None;
            },
            Some((v, j)) => {
                let ghost pre_out = sessions_view(out@);
                let ghost vv = v@;
                out.push(v);
                proof {
                    assert(sessions_view(out@) =~= pre_out + seq![vv]);
                }
                let n = s.unicode_len();
                if j < n && s.get_char(j) == ',' {
                    proof {
                        assert(s@.skip(j as int)[0] == ',');
                        reveal_strlit(",\n");
                        assert((",\n")@ =~= seq![',', '\n']);
                    }
                    match p_lit(s, j, ",\n") {
                        None => {
                            return None;
                        },
                        Some(j2) => {
                            proof {
                                assert(parse_session_items(s@.skip(pos as int), f as nat)
                                    == prepend_sessions(
                                    seq![vv],
                                    parse_session_items(s@.skip(j2 as int), (f - 1) as nat),
                                ));
                                lemma_prepend_sessions_assoc(
                                    pre_out,
                                    seq![vv],
                                    parse_session_items(s@.skip(j2 as int), (f - 1) as nat),
                                );
                            }
                            pos = j2;
                            f = f - 1;
                        },
                    }
                } else {
                    proof {
                        if j < s@.len() {
                            assert(s@.skip(j as int)[0] == s@[j as int]);
                        }
                        assert(parse_session_items(s@.skip(pos as int), f as nat) == Some(
                            (seq![vv], s@.skip(j as int)),
                        ));
                        assert(pre_out + seq![vv] =~= sessions_view(out@));
                    }
                    return Some((out, j));
                }
            },
        }
    }
}

/// Parses a persisted checkpoint document; anything but the renderer's layout
/// is refused.
pub fn parse_checkpoints(s: &str) -> (r: Option<Vec<Checkpoint>>)
    ensures
        match r {
            Some(v) => parse_checkpoints_doc(s@) == Some(cps_view(v@)),
            None => parse_checkpoints_doc(s@) is None,
        },
{
    let n = s.unicode_len();
    if n == 2 && s.get_char(0) == '[' && s.get_char(1) == ']' {
        let out: Vec<Checkpoint> = Vec::new();
        proof {
            assert(s@ =~= seq!['[', ']']);
            assert(cps_view(out@) =~= Seq::<CheckpointView>::empty());
        }
        return Some(out);
    }
    proof {
        assert(s@ != seq!['[', ']']) by {
            if s@ == seq!['[', ']'] {
                assert(s@.len() == 2);
                assert(s@[0] == '[');
                assert(s@[1] == ']');
            }
        }
        reveal_strlit("[\n");
        assert(("[\n")@ =~= seq!['[', '\n']);
        assert(s@.skip(0) =~= s@);
    }
    match p_lit(s, 0, "[\n") {
        None => None,
        Some(j) => {
            proof {
                assert(j == 2);
                assert(s@.skip(2).len() == n - 2);
            }
            match p_checkpoint_items(s, j, n - 2) {
                None => None,
                Some((v, j2)) => {
                    if n >= 2 && j2 == n - 2 && s.get_char(j2) == '\n' && s.get_char(j2 + 1)
                        == ']' {
                        proof {
                            assert(s@.skip(j2 as int) =~= seq!['\n', ']']);
                        }
                        Some(v)
                    } else {
                        proof {
                            assert(s@.skip(j2 as int) != seq!['\n', ']']) by {
                                if s@.skip(j2 as int) == seq!['\n', ']'] {
                                    assert(s@.skip(j2 as int).len() == 2);
                                    assert(s@.skip(j2 as int)[0] == s@[j2 as int]);
                                    assert(s@.skip(j2 as int)[1] == s@[j2 as int + 1]);
                                }
                            }
                        }
                        None
                    }
                },
            }
        },
    }
}

/// Parses a persisted session document; anything but the renderer's layout is
/// refused.
pub fn parse_sessions(s: &str) -> (r: Option<Vec<Session>>)
    ensures
        match r {
            Some(v) => parse_sessions_doc(s@) == Some(sessions_view(v@)),
            None => parse_sessions_doc(s@) is None,
        },
{
    let n = s.unicode_len();
    if n == 2 && s.get_char(0) == '[' && s.get_char(1) == ']' {
        let out: Vec<Session> = Vec::new();
        proof {
            assert(s@ =~= seq!['[', ']']);
            assert(sessions_view(out@) =~= Seq::<SessionView>::empty());
        }
        return Some(out);
    }
    proof {
        assert(s@ != seq!['[', ']']) by {
            if s@ == seq!['[', ']'] {
                assert(s@.len() == 2);
                assert(s@[0] == '[');
                assert(s@[1] == ']');
            }
        }
        reveal_strlit("[\n");
        assert(("[\n")@ =~= seq!['[', '\n']);
        assert(s@.skip(0) =~= s@);
    }
    match p_lit(s, 0, "[\n") {
        None => None,
        Some(j) => {
            proof {
                assert(j == 2);
                assert(s@.skip(2).len() == n - 2);
            }
            match p_session_items(s, j, n - 2) {
                None => None,
                Some((v, j2)) => {
                    if n >= 2 && j2 == n - 2 && s.get_char(j2) == '\n' && s.get_char(j2 + 1)
                        == ']' {
                        proof {
                            assert(s@.skip(j2 as int) =~= seq!['\n', ']']);
                        }
                        Some(v)
                    } else {
                        proof {
                            assert(s@.skip(j2 as int) != seq!['\n', ']']) by {
                                if s@.skip(j2 as int) == seq!['\n', ']'] {
                                    assert(s@.skip(j2 as int).len() == 2);
                                    assert(s@.skip(j2 as int)[0] == s@[j2 as int]);
                                    assert(s@.skip(j2 as int)[1] == s@[j2 as int + 1]);
                                }
                            }
                        }
                        None
                    }
                },
            }
        },
    }
}

} // verus!
