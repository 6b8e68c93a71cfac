//! The byte form in which gym records are kept in durable memory.
//!
//! Integers are eight bytes, least significant first; a string is its UTF-8
//! length followed by its UTF-8 bytes; a list is its length followed by its
//! items; an absent optional integer is one zero byte, a present one is a one
//! byte followed by the integer.
use crate::model::{Gym, GymRegistration, GymService, GymView, RegistrationView, ServiceView};
use vstd::prelude::*;

verus! {

/// The UTF-8 encoding of one character.
pub open spec fn utf8_char(c: char) -> Seq<u8> {
    let x = c as u32;
    if x < 0x80 {
        seq![x as u8]
    } else if x < 0x800 {
        seq![(0xC0 | (x >> 6u32)) as u8, (0x80 | (x & 0x3F)) as u8]
    } else if x < 0x10000 {
        seq![(0xE0 | (x >> 12u32)) as u8, (0x80 | ((x >> 6u32) & 0x3F)) as u8, (0x80 | (x & 0x3F)) as u8]
    } else {
        seq![
            (0xF0 | (x >> 18u32)) as u8,
            (0x80 | ((x >> 12u32) & 0x3F)) as u8,
            (0x80 | ((x >> 6u32) & 0x3F)) as u8,
            (0x80 | (x & 0x3F)) as u8,
        ]
    }
}

/// The UTF-8 encoding of a string.
pub open spec fn utf8_of(s: Seq<char>) -> Seq<u8>
    decreases s.len(),
{
    if s.len() == 0 {
        Seq::empty()
    } else {
        utf8_of(s.drop_last()) + utf8_char(s.last())
    }
}

/// A string takes one to four bytes per character in UTF-8.
pub proof fn lemma_utf8_len(s: Seq<char>)
    ensures
        s.len() <= utf8_of(s).len() <= 4 * s.len(),
    decreases s.len(),
{
    if s.len() > 0 {
        lemma_utf8_len(s.drop_last());
    }
}

/// A string of ASCII characters takes one byte per character in UTF-8.
pub proof fn lemma_utf8_ascii_len(s: Seq<char>)
    requires
        forall|i: int| 0 <= i < s.len() ==> ((#[trigger] s[i]) as u32) < 0x80,
    ensures
        utf8_of(s).len() == s.len(),
    decreases s.len(),
{
    if s.len() > 0 {
        assert((s.last() as u32) < 0x80);
        lemma_utf8_ascii_len(s.drop_last());
    }
}

/// Relies on `str::as_bytes`: a `str` holds the UTF-8 encoding of its
/// characters.
#[verifier::external_body]
fn utf8_bytes(s: &String) -> (r: Vec<u8>)
    ensures
        r@ == utf8_of(s@),
{
    s.as_bytes().to_vec()
}

/// Relies on `String::from_utf8`: it accepts the UTF-8 encoding of any
/// string and gives that string back, and whatever it accepts encodes the
/// string it returns.
#[verifier::external_body]
fn utf8_string(b: Vec<u8>) -> (r: Option<String>)
    ensures
        r is Some ==> utf8_of(r->Some_0@) == b@,
        forall|s: Seq<char>| #[trigger] utf8_of(s) == b@ ==> r is Some && r->Some_0@ == s,
{
    match String::from_utf8(b) {
        Ok(s) => Some(s),
        Err(_) => None,
    }
}

pub open spec fn u64_bytes(x: u64) -> Seq<u8> {
    seq![
        (x & 0xff) as u8,
        ((x >> 8u64) & 0xff) as u8,
        ((x >> 16u64) & 0xff) as u8,
        ((x >> 24u64) & 0xff) as u8,
        ((x >> 32u64) & 0xff) as u8,
        ((x >> 40u64) & 0xff) as u8,
        ((x >> 48u64) & 0xff) as u8,
        ((x >> 56u64) & 0xff) as u8,
    ]
}

pub open spec fn str_bytes(s: Seq<char>) -> Seq<u8> {
    u64_bytes(utf8_of(s).len() as u64) + utf8_of(s)
}

pub open spec fn opt_bytes(o: Option<u64>) -> Seq<u8> {
    match o {
        None => seq![0u8],
        Some(x) => seq![1u8] + u64_bytes(x),
    }
}

proof fn lemma_u64_round_trip(x: u64)
    ensures
        ((x & 0xff) as u8 as u64) | ((((x >> 8u64) & 0xff) as u8 as u64) << 8u64) | ((((x >> 16u64)
            & 0xff) as u8 as u64) << 16u64) | ((((x >> 24u64) & 0xff) as u8 as u64) << 24u64) | ((((x
            >> 32u64) & 0xff) as u8 as u64) << 32u64) | ((((x >> 40u64) & 0xff) as u8 as u64) << 40u64)
            | ((((x >> 48u64) & 0xff) as u8 as u64) << 48u64) | ((((x >> 56u64) & 0xff) as u8 as u64)
            << 56u64) == x,
{
    assert(((x & 0xff) as u8 as u64) | ((((x >> 8u64) & 0xff) as u8 as u64) << 8u64) | ((((x >> 16u64)
        & 0xff) as u8 as u64) << 16u64) | ((((x >> 24u64) & 0xff) as u8 as u64) << 24u64) | ((((x
        >> 32u64) & 0xff) as u8 as u64) << 32u64) | ((((x >> 40u64) & 0xff) as u8 as u64) << 40u64)
        | ((((x >> 48u64) & 0xff) as u8 as u64) << 48u64) | ((((x >> 56u64) & 0xff) as u8 as u64)
        << 56u64) == x) by (bit_vector);
}

fn push_u64(out: &mut Vec<u8>, x: u64)
    ensures
        final(out)@ == old(out)@ + u64_bytes(x),
{
    out.push((x & 0xff) as u8);
    out.push(((x >> 8u64) & 0xff) as u8);
    out.push(((x >> 16u64) & 0xff) as u8);
    out.push(((x >> 24u64) & 0xff) as u8);
    out.push(((x >> 32u64) & 0xff) as u8);
    out.push(((x >> 40u64) & 0xff) as u8);
    out.push(((x >> 48u64) & 0xff) as u8);
    out.push(((x >> 56u64) & 0xff) as u8);
    assert(out@ =~= old(out)@ + u64_bytes(x));
}

fn push_str(out: &mut Vec<u8>, s: &String)
    ensures
        final(out)@ == old(out)@ + str_bytes(s@),
{
    let mut v = utf8_bytes(s);
    push_u64(out, v.len() as u64);
    out.append(&mut v);
    assert(out@ =~= old(out)@ + str_bytes(s@));
}

fn push_opt(out: &mut Vec<u8>, o: Option<u64>)
    ensures
        final(out)@ == old(out)@ + opt_bytes(o),
{
    match o {
        None => {
            out.push(0u8);
            assert(out@ =~= old(out)@ + opt_bytes(o));
        },
        Some(x) => {
            out.push(1u8);
            push_u64(out, x);
            assert(out@ =~= old(out)@ + opt_bytes(o));
        },
    }
}

pub open spec fn reg_bytes(r: RegistrationView) -> Seq<u8> {
    str_bytes(r.user_name) + str_bytes(r.owner) + u64_bytes(r.created_at)
}

pub open spec fn svc_bytes(s: ServiceView) -> Seq<u8> {
    str_bytes(s.service_name) + str_bytes(s.service_description) + u64_bytes(s.created_at) + opt_bytes(
        s.updated_at,
    )
}

pub open spec fn regs_body(s: Seq<RegistrationView>) -> Seq<u8>
    decreases s.len(),
{
    if s.len() == 0 {
        Seq::empty()
    } else {
        reg_bytes(s[0]) + regs_body(s.subrange(1, s.len() as int))
    }
}

pub open spec fn svcs_body(s: Seq<ServiceView>) -> Seq<u8>
    decreases s.len(),
{
    if s.len() == 0 {
        Seq::empty()
    } else {
        svc_bytes(s[0]) + svcs_body(s.subrange(1, s.len() as int))
    }
}

pub open spec fn regs_bytes(s: Seq<RegistrationView>) -> Seq<u8> {
    u64_bytes(s.len() as u64) + regs_body(s)
}

pub open spec fn svcs_bytes(s: Seq<ServiceView>) -> Seq<u8> {
    u64_bytes(s.len() as u64) + svcs_body(s)
}

/// The byte form of a gym.
pub open spec fn gym_bytes(g: GymView) -> Seq<u8> {
    u64_bytes(g.id) + str_bytes(g.gym_name) + regs_bytes(g.members) + str_bytes(g.owner) + str_bytes(
        g.gym_location,
    ) + svcs_bytes(g.gym_services) + str_bytes(g.gym_banner) + u64_bytes(g.created_at) + opt_bytes(
        g.updated_at,
    )
}

proof fn lemma_regs_body_push(s: Seq<RegistrationView>, x: RegistrationView)
    ensures
        regs_body(s.push(x)) == regs_body(s) + reg_bytes(x),
    decreases s.len(),
{
    if s.len() == 0 {
        let e = s.push(x).subrange(1, 1);
        assert(e =~= Seq::<RegistrationView>::empty());
        assert(regs_body(e) == Seq::<u8>::empty());
        assert(s.push(x)[0] == x);
        assert(regs_body(s.push(x)) == reg_bytes(x) + regs_body(e));
        assert(regs_body(s.push(x)) =~= regs_body(s) + reg_bytes(x));
    } else {
        let t = s.subrange(1, s.len() as int);
        lemma_regs_body_push(t, x);
        assert(s.push(x).subrange(1, s.len() as int + 1) =~= t.push(x));
        assert(regs_body(s.push(x)) =~= regs_body(s) + reg_bytes(x));
    }
}

proof fn lemma_svcs_body_push(s: Seq<ServiceView>, x: ServiceView)
    ensures
        svcs_body(s.push(x)) == svcs_body(s) + svc_bytes(x),
    decreases s.len(),
{
    if s.len() == 0 {
        let e = s.push(x).subrange(1, 1);
        assert(e =~= Seq::<ServiceView>::empty());
        assert(svcs_body(e) == Seq::<u8>::empty());
        assert(s.push(x)[0] == x);
        assert(svcs_body(s.push(x)) == svc_bytes(x) + svcs_body(e));
        assert(svcs_body(s.push(x)) =~= svcs_body(s) + svc_bytes(x));
    } else {
        let t = s.subrange(1, s.len() as int);
        lemma_svcs_body_push(t, x);
        assert(s.push(x).subrange(1, s.len() as int + 1) =~= t.push(x));
        assert(svcs_body(s.push(x)) =~= svcs_body(s) + svc_bytes(x));
    }
}

proof fn lemma_regs_body_len(s: Seq<RegistrationView>)
    ensures
        s.len() <= regs_body(s).len(),
    decreases s.len(),
{
    if s.len() > 0 {
        lemma_regs_body_len(s.subrange(1, s.len() as int));
    }
}

proof fn lemma_svcs_body_len(s: Seq<ServiceView>)
    ensures
        s.len() <= svcs_body(s).len(),
    decreases s.len(),
{
    if s.len() > 0 {
        lemma_svcs_body_len(s.subrange(1, s.len() as int));
    }
}

fn push_members(out: &mut Vec<u8>, v: &Vec<GymRegistration>)
    ensures
        final(out)@ == old(out)@ + regs_bytes(v@.map_values(|m: GymRegistration| m@)),
{
    let ghost mv = v@.map_values(|m: GymRegistration| m@);
    push_u64(out, v.len() as u64);
    let ghost start = out@;
    let mut i: usize = 0;
    assert(mv.subrange(0, 0) =~= Seq::<RegistrationView>::empty());
    while i < v.len()
        invariant
            i <= v.len(),
            mv == v@.map_values(|m: GymRegistration| m@),
            out@ == start + regs_body(mv.subrange(0, i as int)),
        decreases v.len() - i,
    {
        let m = &v[i];
        push_str(out, &m.user_name);
        push_str(out, &m.owner);
        push_u64(out, m.created_at);
        proof {
            lemma_regs_body_push(mv.subrange(0, i as int), mv[i as int]);
            assert(mv.subrange(0, i + 1) =~= mv.subrange(0, i as int).push(mv[i as int]));
        }
        i = i + 1;
        assert(out@ =~= start + regs_body(mv.subrange(0, i as int)));
    }
    assert(mv.subrange(0, v.len() as int) =~= mv);
    assert(out@ =~= old(out)@ + regs_bytes(mv));
}

fn push_services(out: &mut Vec<u8>, v: &Vec<GymService>)
    ensures
        final(out)@ == old(out)@ + svcs_bytes(v@.map_values(|s: GymService| s@)),
{
    let ghost sv = v@.map_values(|s: GymService| s@);
    push_u64(out, v.len() as u64);
    let ghost start = out@;
    let mut i: usize = 0;
    assert(sv.subrange(0, 0) =~= Seq::<ServiceView>::empty());
    while i < v.len()
        invariant
            i <= v.len(),
            sv == v@.map_values(|s: GymService| s@),
            out@ == start + svcs_body(sv.subrange(0, i as int)),
        decreases v.len() - i,
    {
        let s = &v[i];
        push_str(out, &s.service_name);
        push_str(out, &s.service_description);
        push_u64(out, s.created_at);
        push_opt(out, s.updated_at);
        proof {
            lemma_svcs_body_push(sv.subrange(0, i as int), sv[i as int]);
            assert(sv.subrange(0, i + 1) =~= sv.subrange(0, i as int).push(sv[i as int]));
        }
        i = i + 1;
        assert(out@ =~= start + svcs_body(sv.subrange(0, i as int)));
    }
    assert(sv.subrange(0, v.len() as int) =~= sv);
    assert(out@ =~= old(out)@ + svcs_bytes(sv));
}

/// The byte form of `g`.
pub fn encode_gym(g: &Gym) -> (r: Vec<u8>)
    ensures
        r@ == gym_bytes(g@),
{
    let mut out: Vec<u8> = Vec::new();
    push_u64(&mut out, g.id);
    push_str(&mut out, &g.gym_name);
    push_members(&mut out, &g.members);
    push_str(&mut out, &g.owner);
    push_str(&mut out, &g.gym_location);
    push_services(&mut out, &g.gym_services);
    push_str(&mut out, &g.gym_banner);
    push_u64(&mut out, g.created_at);
    push_opt(&mut out, g.updated_at);
    assert(out@ =~= gym_bytes(g@));
    out
}

fn check_u64(b: &Vec<u8>, pos: usize, Ghost(expect): Ghost<Option<(u64, Seq<u8>)>>) -> (r: Option<(u64, usize)>)
    requires
        pos <= b.len(),
    ensures
        r matches Some((x, q)) ==> pos <= q <= b.len() && b@.subrange(pos as int, q as int) == u64_bytes(x),
        expect matches Some((x, rest)) ==> b@.subrange(pos as int, b.len() as int) == u64_bytes(x) + rest
            ==> r == Some((x, (pos + 8) as usize)) && b@.subrange(pos + 8, b.len() as int) == rest,
{
    proof {
        if let Some((x, rest)) = expect {
            if b@.subrange(pos as int, b.len() as int) == u64_bytes(x) + rest {
                let tail = b@.subrange(pos as int, b.len() as int);
                assert(tail.len() == 8 + rest.len());
                assert forall|i: int| 0 <= i < 8 implies b@[pos + i] == u64_bytes(x)[i] by {
                    assert(tail[i] == b@[pos + i]);
                }
                assert(b@.subrange(pos + 8, b.len() as int) =~= rest) by {
                    assert forall|i: int| 0 <= i < rest.len() implies b@[pos + 8 + i] == rest[i] by {
                        assert(tail[8 + i] == b@[pos + 8 + i]);
                    }
                }
                lemma_u64_round_trip(x);
            }
        }
    }
    if b.len() - pos < 8 {
        return None;
    }
    let x = (b[pos] as u64) | ((b[pos + 1] as u64) << 8u64) | ((b[pos + 2] as u64) << 16u64) | ((b[pos
        + 3] as u64) << 24u64) | ((b[pos + 4] as u64) << 32u64) | ((b[pos + 5] as u64) << 40u64) | ((b[pos
        + 6] as u64) << 48u64) | ((b[pos + 7] as u64) << 56u64);
    proof {
        let (b0, b1, b2, b3, b4, b5, b6, b7) = (b@[pos as int], b@[pos + 1], b@[pos + 2], b@[pos + 3], b@[pos + 4], b@[pos + 5], b@[pos + 6], b@[pos + 7]);
        lemma_bytes_round_trip(b0, b1, b2, b3, b4, b5, b6, b7);
        assert(b@.subrange(pos as int, pos + 8) =~= u64_bytes(x));
    }
    Some((x, pos + 8))
}

proof fn lemma_bytes_round_trip(b0: u8, b1: u8, b2: u8, b3: u8, b4: u8, b5: u8, b6: u8, b7: u8)
    ensures
        ({
            let x = (b0 as u64) | ((b1 as u64) << 8u64) | ((b2 as u64) << 16u64) | ((b3 as u64) << 24u64)
                | ((b4 as u64) << 32u64) | ((b5 as u64) << 40u64) | ((b6 as u64) << 48u64) | ((b7 as u64)
                << 56u64);
            &&& (x & 0xff) as u8 == b0
            &&& ((x >> 8u64) & 0xff) as u8 == b1
            &&& ((x >> 16u64) & 0xff) as u8 == b2
            &&& ((x >> 24u64) & 0xff) as u8 == b3
            &&& ((x >> 32u64) & 0xff) as u8 == b4
            &&& ((x >> 40u64) & 0xff) as u8 == b5
            &&& ((x >> 48u64) & 0xff) as u8 == b6
            &&& ((x >> 56u64) & 0xff) as u8 == b7
        }),
{
    let x = (b0 as u64) | ((b1 as u64) << 8u64) | ((b2 as u64) << 16u64) | ((b3 as u64) << 24u64) | ((b4
        as u64) << 32u64) | ((b5 as u64) << 40u64) | ((b6 as u64) << 48u64) | ((b7 as u64) << 56u64);
    assert((x & 0xff) as u8 == b0 && ((x >> 8u64) & 0xff) as u8 == b1 && ((x >> 16u64) & 0xff) as u8
        == b2 && ((x >> 24u64) & 0xff) as u8 == b3 && ((x >> 32u64) & 0xff) as u8 == b4 && ((x >> 40u64)
        & 0xff) as u8 == b5 && ((x >> 48u64) & 0xff) as u8 == b6 && ((x >> 56u64) & 0xff) as u8 == b7)
        by (bit_vector)
        requires
            x == (b0 as u64) | ((b1 as u64) << 8u64) | ((b2 as u64) << 16u64) | ((b3 as u64) << 24u64) | ((b4
                as u64) << 32u64) | ((b5 as u64) << 40u64) | ((b6 as u64) << 48u64) | ((b7 as u64) << 56u64),
    ;
}

fn check_str(b: &Vec<u8>, pos: usize, Ghost(expect): Ghost<Option<(Seq<char>, Seq<u8>)>>) -> (r: Option<(String, usize)>)
    requires
        pos <= b.len(),
    ensures
        r matches Some((s, q)) ==> pos <= q <= b.len() && b@.subrange(pos as int, q as int) == str_bytes(s@),
        expect matches Some((t, rest)) ==> b@.subrange(pos as int, b.len() as int) == str_bytes(t) + rest
            ==> (r matches Some((s, q)) && s@ == t && b@.subrange(q as int, b.len() as int) == rest),
{
    let ghost t = expect->Some_0.0;
    let ghost rest = expect->Some_0.1;
    let ghost u = utf8_of(t);
    let ghost hit = expect is Some && b@.subrange(pos as int, b.len() as int) == str_bytes(t) + rest;
    assert(str_bytes(t) + rest =~= u64_bytes(u.len() as u64) + (u + rest));
    let (n, start) = match check_u64(b, pos, Ghost(Some((u.len() as u64, u + rest)))) {
        Some(x) => x,
        None => {
            return None;
        },
    };
    let ghost tail = b@.subrange(start as int, b.len() as int);
    if n > (b.len() - start) as u64 {
        return None;
    }
    let end = start + n as usize;
    let mut v: Vec<u8> = Vec::new();
    let mut i = start;
    while i < end
        invariant
            start <= i <= end,
            end <= b.len(),
            v@ == b@.subrange(start as int, i as int),
        decreases end - i,
    {
        v.push(b[i]);
        i = i + 1;
        assert(v@ =~= b@.subrange(start as int, i as int));
    }
    let ghost bytes = v@;
    proof {
        if hit {
            assert(tail == u + rest);
            assert(bytes =~= u) by {
                assert forall|j: int| 0 <= j < u.len() implies bytes[j] == u[j] by {
                    assert(tail[j] == b@[start + j]);
                }
            }
            assert(b@.subrange(end as int, b.len() as int) =~= rest) by {
                assert forall|j: int| 0 <= j < rest.len() implies b@[end + j] == rest[j] by {
                    assert(tail[u.len() + j] == b@[end + j]);
                }
            }
        }
    }
    match utf8_string(v) {
        Some(text) => {
            assert(b@.subrange(pos as int, end as int) =~= b@.subrange(pos as int, start as int) + bytes);
            Some((text, end))
        },
        None => None,
    }
}

fn check_opt(b: &Vec<u8>, pos: usize, Ghost(expect): Ghost<Option<(Option<u64>, Seq<u8>)>>) -> (r: Option<(Option<u64>, usize)>)
    requires
        pos <= b.len(),
    ensures
        r matches Some((o, q)) ==> pos <= q <= b.len() && b@.subrange(pos as int, q as int) == opt_bytes(o),
        expect matches Some((o, rest)) ==> b@.subrange(pos as int, b.len() as int) == opt_bytes(o) + rest
            ==> (r matches Some((p, q)) && p == o && b@.subrange(q as int, b.len() as int) == rest),
{
    let ghost o = expect->Some_0.0;
    let ghost rest = expect->Some_0.1;
    let ghost hit = expect is Some && b@.subrange(pos as int, b.len() as int) == opt_bytes(o) + rest;
    let ghost tail = b@.subrange(pos as int, b.len() as int);
    proof {
        if hit {
            match o {
                None => {
                    assert(tail.len() == 1 + rest.len());
                    assert(tail[0] == b@[pos as int]);
                    assert(b@.subrange(pos + 1, b.len() as int) =~= rest) by {
                        assert forall|j: int| 0 <= j < rest.len() implies b@[pos + 1 + j] == rest[j] by {
                            assert(tail[1 + j] == b@[pos + 1 + j]);
                        }
                    }
                },
                Some(x) => {
                    assert(tail.len() == 9 + rest.len());
                    assert(tail[0] == b@[pos as int]);
                    assert(b@.subrange(pos + 1, b.len() as int) =~= u64_bytes(x) + rest) by {
                        assert forall|j: int| 0 <= j < 8 + rest.len() implies b@[pos + 1 + j] == (u64_bytes(x)
                            + rest)[j] by {
                            assert(tail[1 + j] == b@[pos + 1 + j]);
                        }
                    }
                },
            }
        }
    }
    if pos == b.len() {
        return None;
    }
    if b[pos] == 0u8 {
        assert(b@.subrange(pos as int, pos + 1) =~= opt_bytes(None));
        Some((None, pos + 1))
    } else if b[pos] == 1u8 {
        match check_u64(b, pos + 1, Ghost(Some((o->Some_0, rest)))) {
            Some((x, q)) => {
                assert(b@.subrange(pos as int, q as int) =~= seq![1u8] + b@.subrange(pos + 1, q as int));
                Some((Some(x), q))
            },
            None => None,
        }
    } else {
        None
    }
}

fn check_members(b: &Vec<u8>, pos: usize, Ghost(expect): Ghost<Option<(Seq<RegistrationView>, Seq<u8>)>>) -> (r: Option<(Vec<GymRegistration>, usize)>)
    requires
        pos <= b.len(),
    ensures
        r matches Some((v, q)) ==> pos <= q <= b.len() && b@.subrange(pos as int, q as int) == regs_bytes(
            v@.map_values(|m: GymRegistration| m@),
        ),
        expect matches Some((v, rest)) ==> b@.subrange(pos as int, b.len() as int) == regs_bytes(v) + rest ==> (
        r matches Some((o, q)) && o@.map_values(|m: GymRegistration| m@) == v && b@.subrange(q as int, b.len() as int)
            == rest),
{
    let ghost v = expect->Some_0.0;
    let ghost rest = expect->Some_0.1;
    let ghost hit = expect is Some && b@.subrange(pos as int, b.len() as int) == regs_bytes(v) + rest;
    proof {
        lemma_regs_body_len(v);
    }
    assert(regs_bytes(v) + rest =~= u64_bytes(v.len() as u64) + (regs_body(v) + rest));
    let (n, start) = match check_u64(b, pos, Ghost(Some((v.len() as u64, regs_body(v) + rest)))) {
        Some(y) => y,
        None => {
            return None;
        },
    };
    let mut out: Vec<GymRegistration> = Vec::new();
    let mut p = start;
    let mut i: u64 = 0;
    assert(out@.map_values(|m: GymRegistration| m@) =~= Seq::<RegistrationView>::empty());
    assert(b@.subrange(start as int, start as int) =~= Seq::<u8>::empty());
    assert(v.subrange(0, v.len() as int) =~= v);
    while i < n
        invariant
            i <= n,
            out.len() == i,
            start <= p <= b.len(),
            b@.subrange(pos as int, start as int) == u64_bytes(n),
            b@.subrange(start as int, p as int) == regs_body(out@.map_values(|m: GymRegistration| m@)),
            v == expect->Some_0.0,
            rest == expect->Some_0.1,
            hit == (expect is Some && b@.subrange(pos as int, b.len() as int) == regs_bytes(v) + rest),
            hit ==> n == v.len(),
            hit ==> b@.subrange(p as int, b.len() as int) == regs_body(v.subrange(i as int, v.len() as int)) + rest,
            hit ==> forall|j: int| 0 <= j < i ==> (#[trigger] out@[j])@ == v[j],
        decreases n - i,
    {
        let ghost x = v[i as int];
        let ghost after = regs_body(v.subrange(i + 1, v.len() as int)) + rest;
        proof {
            if hit {
                let w = v.subrange(i as int, v.len() as int);
                assert(w.subrange(1, w.len() as int) =~= v.subrange(i + 1, v.len() as int));
                assert(w[0] == x);
                assert(regs_body(w) + rest =~= str_bytes(x.user_name) + (str_bytes(x.owner) + (u64_bytes(x.created_at) + after)));
            }
        }
        assert(hit ==> b@.subrange(p as int, b.len() as int) == str_bytes(x.user_name) + (str_bytes(x.owner) + (u64_bytes(x.created_at) + after)));
        let c1 = check_str(b, p, Ghost(Some((x.user_name, str_bytes(x.owner) + (u64_bytes(x.created_at) + after)))));
        assert(hit ==> c1 is Some);
        let (user_name, q1) = match c1 {
            Some(y) => y,
            None => {
                return None;
            },
        };
        assert(hit ==> user_name@ == x.user_name && b@.subrange(q1 as int, b.len() as int) == str_bytes(x.owner) + (u64_bytes(x.created_at) + after));
        let (owner, q2) = match check_str(b, q1, Ghost(Some((x.owner, u64_bytes(x.created_at) + after)))) {
            Some(y) => y,
            None => {
                return None;
            },
        };
        let (created_at, q3) = match check_u64(b, q2, Ghost(Some((x.created_at, after)))) {
            Some(y) => y,
            None => {
                return None;
            },
        };
        let item = GymRegistration { user_name, owner, created_at };
        let ghost before = out@.map_values(|m: GymRegistration| m@);
        proof {
            lemma_regs_body_push(before, item@);
            assert(b@.subrange(p as int, q3 as int) =~= b@.subrange(p as int, q1 as int) + b@.subrange(q1 as int, q2 as int) + b@.subrange(q2 as int, q3 as int));
            assert(b@.subrange(start as int, q3 as int) =~= b@.subrange(start as int, p as int)
                + b@.subrange(p as int, q3 as int));
        }
        out.push(item);
        assert(out@.map_values(|m: GymRegistration| m@) =~= before.push(item@));
        p = q3;
        i = i + 1;
    }
    assert(b@.subrange(pos as int, p as int) =~= b@.subrange(pos as int, start as int) + b@.subrange(
        start as int,
        p as int,
    ));
    proof {
        if hit {
            let e = v.subrange(v.len() as int, v.len() as int);
            assert(e =~= Seq::<RegistrationView>::empty());
            assert(regs_body(e) == Seq::<u8>::empty());
            assert(regs_body(e) + rest =~= rest);
            assert(out@.map_values(|m: GymRegistration| m@) =~= v);
        }
    }
    Some((out, p))
}

#[verifier::rlimit(80)]
fn check_services(b: &Vec<u8>, pos: usize, Ghost(expect): Ghost<Option<(Seq<ServiceView>, Seq<u8>)>>) -> (r: Option<(Vec<GymService>, usize)>)
    requires
        pos <= b.len(),
    ensures
        r matches Some((v, q)) ==> pos <= q <= b.len() && b@.subrange(pos as int, q as int) == svcs_bytes(
            v@.map_values(|s: GymService| s@),
        ),
        expect matches Some((v, rest)) ==> b@.subrange(pos as int, b.len() as int) == svcs_bytes(v) + rest ==> (
        r matches Some((o, q)) && o@.map_values(|s: GymService| s@) == v && b@.subrange(q as int, b.len() as int)
            == rest),
{
    let ghost v = expect->Some_0.0;
    let ghost rest = expect->Some_0.1;
    let ghost hit = expect is Some && b@.subrange(pos as int, b.len() as int) == svcs_bytes(v) + rest;
    proof {
        lemma_svcs_body_len(v);
    }
    assert(svcs_bytes(v) + rest =~= u64_bytes(v.len() as u64) + (svcs_body(v) + rest));
    let (n, start) = match check_u64(b, pos, Ghost(Some((v.len() as u64, svcs_body(v) + rest)))) {
        Some(y) => y,
        None => {
            return None;
        },
    };
    let mut out: Vec<GymService> = Vec::new();
    let mut p = start;
    let mut i: u64 = 0;
    assert(out@.map_values(|s: GymService| s@) =~= Seq::<ServiceView>::empty());
    assert(b@.subrange(start as int, start as int) =~= Seq::<u8>::empty());
    assert(v.subrange(0, v.len() as int) =~= v);
    while i < n
        invariant
            i <= n,
            out.len() == i,
            start <= p <= b.len(),
            b@.subrange(pos as int, start as int) == u64_bytes(n),
            b@.subrange(start as int, p as int) == svcs_body(out@.map_values(|s: GymService| s@)),
            v == expect->Some_0.0,
            rest == expect->Some_0.1,
            hit == (expect is Some && b@.subrange(pos as int, b.len() as int) == svcs_bytes(v) + rest),
            hit ==> n == v.len(),
            hit ==> b@.subrange(p as int, b.len() as int) == svcs_body(v.subrange(i as int, v.len() as int)) + rest,
            hit ==> forall|j: int| 0 <= j < i ==> (#[trigger] out@[j])@ == v[j],
        decreases n - i,
    {
        let ghost x = v[i as int];
        let ghost after = svcs_body(v.subrange(i + 1, v.len() as int)) + rest;
        proof {
            if hit {
                let w = v.subrange(i as int, v.len() as int);
                assert(w.subrange(1, w.len() as int) =~= v.subrange(i + 1, v.len() as int));
                assert(w[0] == x);
                assert(svcs_body(w) + rest =~= str_bytes(x.service_name) + (str_bytes(x.service_description) + (u64_bytes(x.created_at) + (opt_bytes(x.updated_at) + after))));
            }
        }
        let (service_name, q1) = match check_str(b, p, Ghost(Some((x.service_name, str_bytes(x.service_description) + (u64_bytes(x.created_at) + (opt_bytes(x.updated_at) + after)))))) {
            Some(y) => y,
            None => {
                return None;
            },
        };
        assert(hit ==> service_name@ == x.service_name && b@.subrange(q1 as int, b.len() as int)
            == str_bytes(x.service_description) + (u64_bytes(x.created_at) + (opt_bytes(x.updated_at) + after)));
        let (service_description, q2) = match check_str(b, q1, Ghost(Some((x.service_description, u64_bytes(x.created_at) + (opt_bytes(x.updated_at) + after))))) {
            Some(y) => y,
            None => {
                return None;
            },
        };
        assert(hit ==> service_description@ == x.service_description && b@.subrange(q2 as int, b.len() as int)
            == u64_bytes(x.created_at) + (opt_bytes(x.updated_at) + after));
        let (created_at, q3) = match check_u64(b, q2, Ghost(Some((x.created_at, opt_bytes(x.updated_at) + after)))) {
            Some(y) => y,
            None => {
                return None;
            },
        };
        assert(hit ==> created_at == x.created_at && b@.subrange(q3 as int, b.len() as int)
            == opt_bytes(x.updated_at) + after);
        let (updated_at, q4) = match check_opt(b, q3, Ghost(Some((x.updated_at, after)))) {
            Some(y) => y,
            None => {
                return None;
            },
        };
        let item = GymService { service_name, service_description, created_at, updated_at };
        let ghost before = out@.map_values(|s: GymService| s@);
        proof {
            lemma_svcs_body_push(before, item@);
            assert(b@.subrange(p as int, q4 as int) =~= b@.subrange(p as int, q1 as int) + b@.subrange(q1 as int, q2 as int) + b@.subrange(q2 as int, q3 as int) + b@.subrange(q3 as int, q4 as int));
            assert(b@.subrange(start as int, q4 as int) =~= b@.subrange(start as int, p as int)
                + b@.subrange(p as int, q4 as int));
        }
        out.push(item);
        assert(out@.map_values(|s: GymService| s@) =~= before.push(item@));
        p = q4;
        i = i + 1;
    }
    assert(b@.subrange(pos as int, p as int) =~= b@.subrange(pos as int, start as int) + b@.subrange(
        start as int,
        p as int,
    ));
    proof {
        if hit {
            let e = v.subrange(v.len() as int, v.len() as int);
            assert(e =~= Seq::<ServiceView>::empty());
            assert(svcs_body(e) == Seq::<u8>::empty());
            assert(svcs_body(e) + rest =~= rest);
            assert(out@.map_values(|s: GymService| s@) =~= v);
        }
    }
    Some((out, p))
}

/// Reads a gym from bytes of unknown origin: whatever it returns, the bytes
/// are its byte form; and the byte form of `expect` gives back `expect`.
proof fn lemma_gym_bytes_join(
    b: Seq<u8>,
    q1: int,
    q2: int,
    q3: int,
    q4: int,
    q5: int,
    q6: int,
    q7: int,
    q8: int,
    g: GymView,
)
    requires
        0 <= q1 <= q2 <= q3 <= q4 <= q5 <= q6 <= q7 <= q8 <= b.len(),
        b.subrange(0, q1) == u64_bytes(g.id),
        b.subrange(q1, q2) == str_bytes(g.gym_name),
        b.subrange(q2, q3) == regs_bytes(g.members),
        b.subrange(q3, q4) == str_bytes(g.owner),
        b.subrange(q4, q5) == str_bytes(g.gym_location),
        b.subrange(q5, q6) == svcs_bytes(g.gym_services),
        b.subrange(q6, q7) == str_bytes(g.gym_banner),
        b.subrange(q7, q8) == u64_bytes(g.created_at),
        b.subrange(q8, b.len() as int) == opt_bytes(g.updated_at),
    ensures
        b == gym_bytes(g),
{
    assert(b =~= b.subrange(0, q1) + b.subrange(q1, q2) + b.subrange(q2, q3) + b.subrange(q3, q4)
        + b.subrange(q4, q5) + b.subrange(q5, q6) + b.subrange(q6, q7) + b.subrange(q7, q8) + b.subrange(
        q8,
        b.len() as int,
    ));
}

#[verifier::rlimit(100)]
#[verifier::spinoff_prover]
pub(crate) fn try_decode_gym(b: &Vec<u8>, Ghost(expect): Ghost<Option<GymView>>) -> (r: Option<Gym>)
    ensures
        r matches Some(g) ==> b@ == gym_bytes(g@),
        expect matches Some(v) ==> b@ == gym_bytes(v) ==> (r matches Some(g) && g@ == v),
{
    let ghost v = expect->Some_0;
    let ghost hit = expect is Some && b@ == gym_bytes(v);
    let ghost r8 = opt_bytes(v.updated_at);
    let ghost r7 = u64_bytes(v.created_at) + r8;
    let ghost r6 = str_bytes(v.gym_banner) + r7;
    let ghost r5 = svcs_bytes(v.gym_services) + r6;
    let ghost r4 = str_bytes(v.gym_location) + r5;
    let ghost r3 = str_bytes(v.owner) + r4;
    let ghost r2 = regs_bytes(v.members) + r3;
    let ghost r1 = str_bytes(v.gym_name) + r2;
    assert(hit ==> b@.subrange(0, b.len() as int) =~= u64_bytes(v.id) + r1);
    assert(r8 + Seq::<u8>::empty() =~= r8);
    let (id, q1) = match check_u64(b, 0, Ghost(Some((v.id, r1)))) {
        Some(x) => x,
        None => {
            return None;
        },
    };
    assert(hit ==> id == v.id && b@.subrange(q1 as int, b.len() as int) == r1);
    let (gym_name, q2) = match check_str(b, q1, Ghost(Some((v.gym_name, r2)))) {
        Some(x) => x,
        None => {
            return None;
        },
    };
    assert(hit ==> gym_name@ == v.gym_name && b@.subrange(q2 as int, b.len() as int) == r2);
    let (members, q3) = match check_members(b, q2, Ghost(Some((v.members, r3)))) {
        Some(x) => x,
        None => {
            return None;
        },
    };
    assert(hit ==> members@.map_values(|x: GymRegistration| x@) == v.members && b@.subrange(q3 as int, b.len() as int) == r3);
    let (owner, q4) = match check_str(b, q3, Ghost(Some((v.owner, r4)))) {
        Some(x) => x,
        None => {
            return None;
        },
    };
    assert(hit ==> owner@ == v.owner && b@.subrange(q4 as int, b.len() as int) == r4);
    let (gym_location, q5) = match check_str(b, q4, Ghost(Some((v.gym_location, r5)))) {
        Some(x) => x,
        None => {
            return None;
        },
    };
    assert(hit ==> gym_location@ == v.gym_location && b@.subrange(q5 as int, b.len() as int) == r5);
    let (gym_services, q6) = match check_services(b, q5, Ghost(Some((v.gym_services, r6)))) {
        Some(x) => x,
        None => {
            return None;
        },
    };
    assert(hit ==> gym_services@.map_values(|x: GymService| x@) == v.gym_services && b@.subrange(q6 as int, b.len() as int) == r6);
    let (gym_banner, q7) = match check_str(b, q6, Ghost(Some((v.gym_banner, r7)))) {
        Some(x) => x,
        None => {
            return None;
        },
    };
    assert(hit ==> gym_banner@ == v.gym_banner && b@.subrange(q7 as int, b.len() as int) == r7);
    let (created_at, q8) = match check_u64(b, q7, Ghost(Some((v.created_at, r8)))) {
        Some(x) => x,
        None => {
            return None;
        },
    };
    assert(hit ==> created_at == v.created_at && b@.subrange(q8 as int, b.len() as int) == r8);
    let (updated_at, q9) = match check_opt(b, q8, Ghost(Some((v.updated_at, Seq::<u8>::empty())))) {
        Some(x) => x,
        None => {
            return None;
        },
    };
    if q9 != b.len() {
        assert(hit ==> b@.subrange(q9 as int, b.len() as int).len() == 0);
        return None;
    }
    let g = Gym {
        id,
        gym_name,
        members,
        owner,
        gym_location,
        gym_services,
        gym_banner,
        created_at,
        updated_at,
    };
    proof {
        lemma_gym_bytes_join(b@, q1 as int, q2 as int, q3 as int, q4 as int, q5 as int, q6 as int, q7 as int, q8 as int, g@);
    }
    Some(g)
}

/// Reads back the gym whose byte form `b` is. Bytes that are no gym's byte
/// form are corrupt durable state, which callers must rule out.
pub(crate) fn decode_gym(b: &Vec<u8>, Ghost(v): Ghost<GymView>) -> (r: Gym)
    requires
        b@ == gym_bytes(v),
    ensures
        r@ == v,
{
    match try_decode_gym(b, Ghost(Some(v))) {
        Some(g) => g,
        None => Gym {
            id: 0,
            gym_name: String::new(),
            members: Vec::new(),
            owner: String::new(),
            gym_location: String::new(),
            gym_services: Vec::new(),
            gym_banner: String::new(),
            created_at: 0,
            updated_at: None,
        },
    }
}

} // verus!
