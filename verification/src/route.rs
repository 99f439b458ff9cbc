//! Routing-netlink message construction and name resolution.
//!
//! Policy rules and routes are installed by sending raw datagrams on a
//! routing-family netlink socket: a fixed netlink header, a family-specific
//! fixed header, and 4-byte-aligned attribute records, all in the
//! little-endian byte order of the platforms the bridge runs on. This
//! module builds those datagrams byte for byte, parses the acknowledgement
//! replies, parses dotted-quad networks, and resolves routing-table names;
//! the unverified shell owns the socket and the table-names file.

use vstd::prelude::*;

use crate::text::{
    all_digits, dec_value, digits_end, digits_end_exec, parse_u64, str_eq, u64_dec, u64_to_string,
};

verus! {

pub const RTM_NEWROUTE: u16 = 24;

pub const RTM_DELROUTE: u16 = 25;

pub const RTM_NEWRULE: u16 = 32;

pub const RTM_DELRULE: u16 = 33;

pub const NLM_F_REQUEST: u16 = 0x0001;

pub const NLM_F_ACK: u16 = 0x0004;

pub const NLM_F_CREATE: u16 = 0x0400;

pub const NLM_F_EXCL: u16 = 0x0200;

pub const NLMSG_ERROR: u16 = 2;

pub const RTA_DST: u16 = 1;

pub const RTA_OIF: u16 = 4;

pub const RTA_TABLE: u16 = 15;

pub const FRA_DST: u16 = 1;

pub const FRA_SRC: u16 = 2;

pub const FRA_TABLE: u16 = 15;

pub const FRA_PRIORITY: u16 = 6;

pub const AF_INET: u8 = 2;

pub const RTN_UNICAST: u8 = 1;

pub const RTPROT_STATIC: u8 = 4;

pub const RT_SCOPE_UNIVERSE: u8 = 0;

pub const RT_SCOPE_LINK: u8 = 253;

pub const FR_ACT_TO_TBL: u8 = 1;

// ---------------------------------------------------------------------------
// Little-endian scalars
// ---------------------------------------------------------------------------

/// A 16-bit value as two little-endian bytes.
pub open spec fn u16_le(v: u16) -> Seq<u8> {
    seq![(v % 256) as u8, (v / 256) as u8]
}

/// A 32-bit value as four little-endian bytes.
pub open spec fn u32_le(v: u32) -> Seq<u8> {
    seq![
        (v % 256) as u8,
        ((v / 256) % 256) as u8,
        ((v / 65536) % 256) as u8,
        (v / 16777216) as u8,
    ]
}

/// Four little-endian bytes read back as a 32-bit value.
pub open spec fn u32_of_le(b0: u8, b1: u8, b2: u8, b3: u8) -> u32 {
    (b0 + b1 * 256 + b2 * 65536 + b3 * 16777216) as u32
}

fn push_u16_le(buf: &mut Vec<u8>, v: u16)
    ensures
        final(buf)@ == old(buf)@ + u16_le(v),
{
    buf.push((v % 256) as u8);
    buf.push((v / 256) as u8);
    proof {
        assert(buf@ =~= old(buf)@ + u16_le(v));
    }
}

fn push_u32_le(buf: &mut Vec<u8>, v: u32)
    ensures
        final(buf)@ == old(buf)@ + u32_le(v),
{
    buf.push((v % 256) as u8);
    buf.push(((v / 256) % 256) as u8);
    buf.push(((v / 65536) % 256) as u8);
    buf.push((v / 16777216) as u8);
    proof {
        assert(buf@ =~= old(buf)@ + u32_le(v));
    }
}

// ---------------------------------------------------------------------------
// Attribute records
// ---------------------------------------------------------------------------

/// The next multiple of four at or above `len`: netlink attribute records
/// are padded to 4-byte alignment.
pub fn align4(len: usize) -> (r: usize)
    requires
        len <= usize::MAX - 3,
    ensures
        r == ((len + 3) / 4) * 4,
        len <= r < len + 4,
        r % 4 == 0,
{
    let r = ((len + 3) / 4) * 4;
    proof {
        assert(len <= ((len + 3) / 4) * 4 < len + 4 && (((len + 3) / 4) * 4) % 4 == 0) by (nonlinear_arith);
    }
    r
}

/// One attribute record: a 4-byte `(len, type)` header, the payload, and
/// zero padding up to 4-byte alignment.
pub open spec fn attr_spec(rta_type: u16, data: Seq<u8>) -> Seq<u8> {
    u16_le((4 + data.len()) as u16) + u16_le(rta_type) + data + Seq::<u8>::new(
        ((((data.len() + 3) / 4) * 4 - data.len()) as nat),
        |i: int| 0u8,
    )
}

/// Append one attribute record to a message under construction.
pub fn push_attr(buf: &mut Vec<u8>, rta_type: u16, data: &[u8])
    requires
        data@.len() <= 1024,
    ensures
        final(buf)@ == old(buf)@ + attr_spec(rta_type, data@),
{
    let rta_len = (4 + data.len()) as u16;
    push_u16_le(buf, rta_len);
    push_u16_le(buf, rta_type);
    let mut i: usize = 0;
    let ghost mid = buf@;
    while i < data.len()
        invariant
            0 <= i <= data@.len(),
            buf@ == mid + data@.subrange(0, i as int),
        decreases data@.len() - i,
    {
        buf.push(data[i]);
        proof {
            assert(mid + data@.subrange(0, i as int) + seq![data@[i as int]] =~= mid
                + data@.subrange(0, i as int + 1));
        }
        i = i + 1;
    }
    proof {
        assert(data@.subrange(0, data@.len() as int) =~= data@);
    }
    let padded = align4(data.len());
    let pad = padded - data.len();
    let ghost mid2 = buf@;
    let mut j: usize = 0;
    while j < pad
        invariant
            0 <= j <= pad,
            pad == ((data@.len() + 3) / 4) * 4 - data@.len(),
            buf@ == mid2 + Seq::<u8>::new(j as nat, |k: int| 0u8),
        decreases pad - j,
    {
        buf.push(0u8);
        proof {
            assert(mid2 + Seq::<u8>::new(j as nat, |k: int| 0u8) + seq![0u8] =~= mid2 + Seq::<
                u8,
            >::new(j as nat + 1, |k: int| 0u8));
        }
        j = j + 1;
    }
    proof {
        assert(buf@ =~= old(buf)@ + attr_spec(rta_type, data@));
    }
}

/// Append one attribute record holding a little-endian 32-bit value.
pub fn push_attr_u32(buf: &mut Vec<u8>, rta_type: u16, val: u32)
    ensures
        final(buf)@ == old(buf)@ + attr_spec(rta_type, u32_le(val)),
{
    push_u16_le(buf, 8);
    push_u16_le(buf, rta_type);
    push_u32_le(buf, val);
    proof {
        assert(buf@ =~= old(buf)@ + attr_spec(rta_type, u32_le(val)));
    }
}

// ---------------------------------------------------------------------------
// Dotted-quad networks
// ---------------------------------------------------------------------------

/// An IPv4 network: four octets and a prefix length.
#[derive(Debug, Clone, Copy, PartialEq, Eq, Structural)]
pub struct Ipv4Net {
    pub a: u8,
    pub b: u8,
    pub c: u8,
    pub d: u8,
    pub prefix: u8,
}

/// The text of an octet: its decimal numeral, which never carries a
/// leading zero.
pub open spec fn octet_ok(s: Seq<char>, i: int, j: int) -> bool {
    &&& j > i
    &&& dec_value(s.subrange(i, j)) <= 255
    &&& (j - i == 1 || s[i] != '0')
}

/// The deterministic read of `a.b.c.d/p` text: four digit runs joined by
/// dots, a slash, and a prefix value up to 255; octets reject leading
/// zeros, the prefix does not.
pub open spec fn spec_parse_network(s: Seq<char>) -> Option<Ipv4Net> {
    let e1 = digits_end(s, 0);
    let e2 = digits_end(s, e1 + 1);
    let e3 = digits_end(s, e2 + 1);
    let e4 = digits_end(s, e3 + 1);
    let e5 = digits_end(s, e4 + 1);
    if !(octet_ok(s, 0, e1) && e1 < s.len() && s[e1] == '.') {
        None
    } else if !(octet_ok(s, e1 + 1, e2) && e2 < s.len() && s[e2] == '.') {
        None
    } else if !(octet_ok(s, e2 + 1, e3) && e3 < s.len() && s[e3] == '.') {
        None
    } else if !(octet_ok(s, e3 + 1, e4) && e4 < s.len() && s[e4] == '/') {
        None
    } else if !(e5 == s.len() && e5 > e4 + 1 && dec_value(s.subrange(e4 + 1, e5)) <= 255) {
        None
    } else {
        Some(
            Ipv4Net {
                a: dec_value(s.subrange(0, e1)) as u8,
                b: dec_value(s.subrange(e1 + 1, e2)) as u8,
                c: dec_value(s.subrange(e2 + 1, e3)) as u8,
                d: dec_value(s.subrange(e3 + 1, e4)) as u8,
                prefix: dec_value(s.subrange(e4 + 1, e5)) as u8,
            },
        )
    }
}

fn parse_piece(s: &str, start: usize, end: usize, reject_leading_zero: bool) -> (r: Option<u8>)
    requires
        start <= end <= s@.len(),
        all_digits(s@.subrange(start as int, end as int)),
    ensures
        r matches Some(v) ==> end > start && dec_value(s@.subrange(start as int, end as int))
            <= 255 && v == dec_value(s@.subrange(start as int, end as int)) && (
        reject_leading_zero ==> (end - start == 1 || s@[start as int] != '0')),
        r is None ==> !(end > start && dec_value(s@.subrange(start as int, end as int)) <= 255 && (
        !reject_leading_zero || end - start == 1 || s@[start as int] != '0')),
{
    if start == end {
        return None;
    }
    if reject_leading_zero && end - start > 1 {
        let c = s.get_char(start);
        if c as u32 == 48 {
            proof {
                vstd::utf8::char_u32_cast(s@[start as int], 48);
                assert(s@[start as int] == '0') by {
                    assert((48u32 as char) == s@[start as int]);
                    assert('0' as u32 == 48);
                    vstd::utf8::char_u32_cast('0', 48);
                }
            }
            return None;
        }
        proof {
            assert(s@[start as int] != '0') by {
                if s@[start as int] == '0' {
                    assert(s@[start as int] as u32 == 48);
                }
            }
        }
    }
    let piece = s.substring_char(start, end);
    match parse_u64(piece) {
        Some(v) => {
            if v <= 255 {
                Some(v as u8)
            } else {
                None
            }
        },
        None => {
            proof {
                assert(dec_value(s@.subrange(start as int, end as int)) > u64::MAX);
            }
            None
        },
    }
}

/// Parse `a.b.c.d/p` text. The result is exactly what
/// `spec_parse_network` reads from it.
pub fn parse_network(network: &str) -> (r: Result<Ipv4Net, String>)
    ensures
        r matches Ok(n) ==> spec_parse_network(network@) == Some(n),
        r is Err <==> spec_parse_network(network@) is None,
{
    let len = network.unicode_len();
    let e1 = digits_end_exec(network, 0);
    proof {
        crate::text::lemma_digits_end(network@, 0);
    }
    if e1 >= len {
        return Err(String::from_str("Invalid network format"));
    }
    let ch = network.get_char(e1) as u32;
    if ch != 46 {
        proof {
            char_neq(network@[e1 as int], ch, 46, '.');
        }
        return Err(String::from_str("Invalid network format"));
    }
    proof {
        char_eq(network@[e1 as int], 46, '.');
    }
    let a = parse_octet_at(network, 0, e1);
    let e2 = digits_end_exec(network, e1 + 1);
    proof {
        crate::text::lemma_digits_end(network@, e1 as int + 1);
    }
    if e2 >= len {
        return Err(String::from_str("Invalid network format"));
    }
    let ch = network.get_char(e2) as u32;
    if ch != 46 {
        proof {
            char_neq(network@[e2 as int], ch, 46, '.');
        }
        return Err(String::from_str("Invalid network format"));
    }
    proof {
        char_eq(network@[e2 as int], 46, '.');
    }
    let b = parse_octet_at(network, e1 + 1, e2);
    let e3 = digits_end_exec(network, e2 + 1);
    proof {
        crate::text::lemma_digits_end(network@, e2 as int + 1);
    }
    if e3 >= len {
        return Err(String::from_str("Invalid network format"));
    }
    let ch = network.get_char(e3) as u32;
    if ch != 46 {
        proof {
            char_neq(network@[e3 as int], ch, 46, '.');
        }
        return Err(String::from_str("Invalid network format"));
    }
    proof {
        char_eq(network@[e3 as int], 46, '.');
    }
    let c = parse_octet_at(network, e2 + 1, e3);
    let e4 = digits_end_exec(network, e3 + 1);
    proof {
        crate::text::lemma_digits_end(network@, e3 as int + 1);
    }
    if e4 >= len {
        return Err(String::from_str("Invalid network format"));
    }
    let ch = network.get_char(e4) as u32;
    if ch != 47 {
        proof {
            char_neq(network@[e4 as int], ch, 47, '/');
        }
        return Err(String::from_str("Invalid network format"));
    }
    proof {
        char_eq(network@[e4 as int], 47, '/');
    }
    let d = parse_octet_at(network, e3 + 1, e4);
    let e5 = digits_end_exec(network, e4 + 1);
    proof {
        crate::text::lemma_digits_end(network@, e4 as int + 1);
    }
    if e5 != len {
        return Err(String::from_str("Invalid prefix length"));
    }
    let p = parse_prefix_at(network, e4 + 1, e5);
    match (a, b, c, d, p) {
        (Some(a), Some(b), Some(c), Some(d), Some(prefix)) => Ok(
            Ipv4Net { a, b, c, d, prefix },
        ),
        _ => Err(String::from_str("Invalid IP address")),
    }
}

fn parse_octet_at(s: &str, start: usize, end: usize) -> (r: Option<u8>)
    requires
        start <= end <= s@.len(),
        all_digits(s@.subrange(start as int, end as int)),
    ensures
        r matches Some(v) ==> octet_ok(s@, start as int, end as int) && v == dec_value(
            s@.subrange(start as int, end as int),
        ),
        r is None ==> !octet_ok(s@, start as int, end as int),
{
    parse_piece(s, start, end, true)
}

fn parse_prefix_at(s: &str, start: usize, end: usize) -> (r: Option<u8>)
    requires
        start <= end <= s@.len(),
        all_digits(s@.subrange(start as int, end as int)),
    ensures
        r matches Some(v) ==> end > start && dec_value(s@.subrange(start as int, end as int))
            <= 255 && v == dec_value(s@.subrange(start as int, end as int)),
        r is None ==> !(end > start && dec_value(s@.subrange(start as int, end as int)) <= 255),
{
    parse_piece(s, start, end, false)
}

proof fn char_eq(c: char, u: u32, lit: char)
    requires
        c as u32 == u,
        lit as u32 == u,
    ensures
        c == lit,
{
    vstd::utf8::char_u32_cast(c, u);
    vstd::utf8::char_u32_cast(lit, u);
}

proof fn char_neq(c: char, cu: u32, u: u32, lit: char)
    requires
        c as u32 == cu,
        cu != u,
        lit as u32 == u,
    ensures
        c != lit,
{
}

// ---------------------------------------------------------------------------
// Datagrams
// ---------------------------------------------------------------------------

/// The 16-byte netlink header: length, type, flags, sequence, and a zero
/// port id so the kernel assigns one.
pub open spec fn nlmsghdr_spec(len: u32, msg_type: u16, flags: u16, seq: u32) -> Seq<u8> {
    u32_le(len) + u16_le(msg_type) + u16_le(flags) + u32_le(seq) + u32_le(0)
}

/// The 12-byte policy-rule header: IPv4, the destination and source prefix
/// widths, the one-byte table id when it fits, and the to-table action.
pub open spec fn fib_rule_hdr_spec(dst_len: u8, src_len: u8, table: u8) -> Seq<u8> {
    seq![AF_INET, dst_len, src_len, 0u8, table, 0u8, 0u8, FR_ACT_TO_TBL] + u32_le(0)
}

/// The 12-byte route header: IPv4, the destination prefix width, the
/// one-byte table id when it fits, static protocol, universe scope for a
/// default route and link scope otherwise, unicast type.
pub open spec fn rt_msg_hdr_spec(dst_len: u8, table: u8) -> Seq<u8> {
    seq![
        AF_INET,
        dst_len,
        0u8,
        0u8,
        table,
        RTPROT_STATIC,
        (if dst_len == 0 {
            RT_SCOPE_UNIVERSE
        } else {
            RT_SCOPE_LINK
        }),
        RTN_UNICAST,
    ] + u32_le(0)
}

/// The one-byte table field: the id itself when it fits, else zero with
/// the id carried in an attribute.
pub open spec fn table_byte(table_id: u32) -> u8 {
    if table_id <= 255 {
        table_id as u8
    } else {
        0u8
    }
}

/// A policy-rule request: header, fixed part, then the source address, the
/// optional destination address, the table id when it exceeds one byte,
/// and the priority.
pub open spec fn policy_msg_spec(
    msg_type: u16,
    flags: u16,
    seq: u32,
    from: Ipv4Net,
    to: Option<Ipv4Net>,
    table_id: u32,
    priority: u32,
) -> Seq<u8> {
    let attrs = attr_spec(FRA_SRC, seq![from.a, from.b, from.c, from.d]) + (match to {
        Some(t) => attr_spec(FRA_DST, seq![t.a, t.b, t.c, t.d]),
        None => Seq::<u8>::empty(),
    }) + (if table_id > 255 {
        attr_spec(FRA_TABLE, u32_le(table_id))
    } else {
        Seq::<u8>::empty()
    }) + attr_spec(FRA_PRIORITY, u32_le(priority));
    let dst_len = match to {
        Some(t) => t.prefix,
        None => 0u8,
    };
    nlmsghdr_spec((28 + attrs.len()) as u32, msg_type, flags, seq) + fib_rule_hdr_spec(
        dst_len,
        from.prefix,
        table_byte(table_id),
    ) + attrs
}

/// A route request: header, fixed part, then the destination address when
/// the prefix is non-zero, the output interface, and the table id when it
/// exceeds one byte.
pub open spec fn route_msg_spec(
    msg_type: u16,
    flags: u16,
    seq: u32,
    dst: Ipv4Net,
    ifindex: u32,
    table_id: u32,
) -> Seq<u8> {
    let attrs = (if dst.prefix > 0 {
        attr_spec(RTA_DST, seq![dst.a, dst.b, dst.c, dst.d])
    } else {
        Seq::<u8>::empty()
    }) + attr_spec(RTA_OIF, u32_le(ifindex)) + (if table_id > 255 {
        attr_spec(RTA_TABLE, u32_le(table_id))
    } else {
        Seq::<u8>::empty()
    });
    nlmsghdr_spec((28 + attrs.len()) as u32, msg_type, flags, seq) + rt_msg_hdr_spec(
        dst.prefix,
        table_byte(table_id),
    ) + attrs
}

#[verifier::rlimit(50)]
fn build_policy_msg(
    msg_type: u16,
    flags: u16,
    seq: u32,
    from: Ipv4Net,
    to: Option<Ipv4Net>,
    table_id: u32,
    priority: u32,
) -> (buf: Vec<u8>)
    ensures
        buf@ == policy_msg_spec(msg_type, flags, seq, from, to, table_id, priority),
{
    let has_to = to.is_some();
    let attrs_len: u32 = 8 + (if has_to {
        8u32
    } else {
        0u32
    }) + (if table_id > 255 {
        8u32
    } else {
        0u32
    }) + 8;
    let dst_len: u8 = match &to {
        Some(t) => t.prefix,
        None => 0,
    };
    let table: u8 = if table_id <= 255 {
        table_id as u8
    } else {
        0
    };
    let mut buf: Vec<u8> = Vec::new();
    push_u32_le(&mut buf, 28 + attrs_len);
    push_u16_le(&mut buf, msg_type);
    push_u16_le(&mut buf, flags);
    push_u32_le(&mut buf, seq);
    push_u32_le(&mut buf, 0);
    buf.push(AF_INET);
    buf.push(dst_len);
    buf.push(from.prefix);
    buf.push(0);
    buf.push(table);
    buf.push(0);
    buf.push(0);
    buf.push(FR_ACT_TO_TBL);
    push_u32_le(&mut buf, 0);
    let ghost hdr_done = buf@;
    push_u16_le(&mut buf, 8);
    push_u16_le(&mut buf, FRA_SRC);
    buf.push(from.a);
    buf.push(from.b);
    buf.push(from.c);
    buf.push(from.d);
    proof {
        assert(buf@ =~= hdr_done + attr_spec(FRA_SRC, seq![from.a, from.b, from.c, from.d]));
    }
    match &to {
        Some(t) => {
            let ghost before = buf@;
            push_u16_le(&mut buf, 8);
            push_u16_le(&mut buf, FRA_DST);
            buf.push(t.a);
            buf.push(t.b);
            buf.push(t.c);
            buf.push(t.d);
            proof {
                assert(buf@ =~= before + attr_spec(FRA_DST, seq![t.a, t.b, t.c, t.d]));
            }
        },
        None => {},
    }
    if table_id > 255 {
        push_attr_u32(&mut buf, FRA_TABLE, table_id);
    }
    push_attr_u32(&mut buf, FRA_PRIORITY, priority);
    proof {
        assert(buf@ =~= policy_msg_spec(msg_type, flags, seq, from, to, table_id, priority));
    }
    buf
}

#[verifier::rlimit(50)]
fn build_route_msg(msg_type: u16, flags: u16, seq: u32, dst: Ipv4Net, ifindex: u32, table_id: u32) -> (buf:
    Vec<u8>)
    ensures
        buf@ == route_msg_spec(msg_type, flags, seq, dst, ifindex, table_id),
{
    let attrs_len: u32 = (if dst.prefix > 0 {
        8u32
    } else {
        0u32
    }) + 8 + (if table_id > 255 {
        8u32
    } else {
        0u32
    });
    let table: u8 = if table_id <= 255 {
        table_id as u8
    } else {
        0
    };
    let scope: u8 = if dst.prefix == 0 {
        RT_SCOPE_UNIVERSE
    } else {
        RT_SCOPE_LINK
    };
    let mut buf: Vec<u8> = Vec::new();
    push_u32_le(&mut buf, 28 + attrs_len);
    push_u16_le(&mut buf, msg_type);
    push_u16_le(&mut buf, flags);
    push_u32_le(&mut buf, seq);
    push_u32_le(&mut buf, 0);
    buf.push(AF_INET);
    buf.push(dst.prefix);
    buf.push(0);
    buf.push(0);
    buf.push(table);
    buf.push(RTPROT_STATIC);
    buf.push(scope);
    buf.push(RTN_UNICAST);
    push_u32_le(&mut buf, 0);
    if dst.prefix > 0 {
        let ghost before = buf@;
        push_u16_le(&mut buf, 8);
        push_u16_le(&mut buf, RTA_DST);
        buf.push(dst.a);
        buf.push(dst.b);
        buf.push(dst.c);
        buf.push(dst.d);
        proof {
            assert(buf@ =~= before + attr_spec(RTA_DST, seq![dst.a, dst.b, dst.c, dst.d]));
        }
    }
    push_attr_u32(&mut buf, RTA_OIF, ifindex);
    if table_id > 255 {
        push_attr_u32(&mut buf, RTA_TABLE, table_id);
    }
    proof {
        assert(buf@ =~= route_msg_spec(msg_type, flags, seq, dst, ifindex, table_id));
    }
    buf
}

/// Build the datagram that adds a policy rule: `from <net> [to <net>]
/// table <id> priority <p>`, with create-and-exclusive flags so re-adding
/// an identical rule surfaces an error. Fails exactly when a network does
/// not parse; an empty destination means none.
pub fn policy_add(from_network: &str, to_network: &str, table_id: u32, priority: u32, seq: u32) -> (r:
    Result<Vec<u8>, String>)
    ensures
        r is Err <==> (spec_parse_network(from_network@) is None || (to_network@.len() > 0
            && spec_parse_network(to_network@) is None)),
        r matches Ok(buf) ==> to_network@.len() == 0 ==> buf@ == policy_msg_spec(
            RTM_NEWRULE,
            NLM_F_REQUEST | NLM_F_ACK | NLM_F_CREATE | NLM_F_EXCL,
            seq,
            spec_parse_network(from_network@)->Some_0,
            None,
            table_id,
            priority,
        ),
        r matches Ok(buf) ==> to_network@.len() > 0 ==> buf@ == policy_msg_spec(
            RTM_NEWRULE,
            NLM_F_REQUEST | NLM_F_ACK | NLM_F_CREATE | NLM_F_EXCL,
            seq,
            spec_parse_network(from_network@)->Some_0,
            Some(spec_parse_network(to_network@)->Some_0),
            table_id,
            priority,
        ),
{
    let from = match parse_network(from_network) {
        Ok(n) => n,
        Err(e) => {
            return Err(e);
        },
    };
    let to = if to_network.is_empty() {
        None
    } else {
        match parse_network(to_network) {
            Ok(n) => Some(n),
            Err(e) => {
                return Err(e);
            },
        }
    };
    Ok(
        build_policy_msg(
            RTM_NEWRULE,
            NLM_F_REQUEST | NLM_F_ACK | NLM_F_CREATE | NLM_F_EXCL,
            seq,
            from,
            to,
            table_id,
            priority,
        ),
    )
}

/// Build the datagram that deletes a policy rule: the same body as the
/// add, without the create flags.
pub fn policy_delete(from_network: &str, to_network: &str, table_id: u32, priority: u32, seq: u32) -> (r:
    Result<Vec<u8>, String>)
    ensures
        r is Err <==> (spec_parse_network(from_network@) is None || (to_network@.len() > 0
            && spec_parse_network(to_network@) is None)),
        r matches Ok(buf) ==> to_network@.len() == 0 ==> buf@ == policy_msg_spec(
            RTM_DELRULE,
            NLM_F_REQUEST | NLM_F_ACK,
            seq,
            spec_parse_network(from_network@)->Some_0,
            None,
            table_id,
            priority,
        ),
        r matches Ok(buf) ==> to_network@.len() > 0 ==> buf@ == policy_msg_spec(
            RTM_DELRULE,
            NLM_F_REQUEST | NLM_F_ACK,
            seq,
            spec_parse_network(from_network@)->Some_0,
            Some(spec_parse_network(to_network@)->Some_0),
            table_id,
            priority,
        ),
{
    let from = match parse_network(from_network) {
        Ok(n) => n,
        Err(e) => {
            return Err(e);
        },
    };
    let to = if to_network.is_empty() {
        None
    } else {
        match parse_network(to_network) {
            Ok(n) => Some(n),
            Err(e) => {
                return Err(e);
            },
        }
    };
    Ok(build_policy_msg(RTM_DELRULE, NLM_F_REQUEST | NLM_F_ACK, seq, from, to, table_id, priority))
}

/// The destination a route text denotes: `default` and `0.0.0.0/0` mean
/// the default route, anything else must parse as a network.
pub open spec fn spec_route_dst(s: Seq<char>) -> Option<Ipv4Net> {
    if s == "default"@ || s == "0.0.0.0/0"@ {
        Some(Ipv4Net { a: 0, b: 0, c: 0, d: 0, prefix: 0 })
    } else {
        spec_parse_network(s)
    }
}

fn route_dst(destination: &str) -> (r: Result<Ipv4Net, String>)
    ensures
        r matches Ok(n) ==> spec_route_dst(destination@) == Some(n),
        r is Err <==> spec_route_dst(destination@) is None,
{
    if str_eq(destination, "default") || str_eq(destination, "0.0.0.0/0") {
        Ok(Ipv4Net { a: 0, b: 0, c: 0, d: 0, prefix: 0 })
    } else {
        parse_network(destination)
    }
}

/// Build the datagram that adds a route to a table through an interface,
/// with create-and-exclusive flags. Fails exactly when the destination
/// text neither names the default route nor parses as a network.
pub fn route_add(destination: &str, ifindex: u32, table_id: u32, seq: u32) -> (r: Result<
    Vec<u8>,
    String,
>)
    ensures
        r is Err <==> spec_route_dst(destination@) is None,
        r matches Ok(buf) ==> buf@ == route_msg_spec(
            RTM_NEWROUTE,
            NLM_F_REQUEST | NLM_F_ACK | NLM_F_CREATE | NLM_F_EXCL,
            seq,
            spec_route_dst(destination@)->Some_0,
            ifindex,
            table_id,
        ),
{
    let dst = match route_dst(destination) {
        Ok(n) => n,
        Err(e) => {
            return Err(e);
        },
    };
    Ok(
        build_route_msg(
            RTM_NEWROUTE,
            NLM_F_REQUEST | NLM_F_ACK | NLM_F_CREATE | NLM_F_EXCL,
            seq,
            dst,
            ifindex,
            table_id,
        ),
    )
}

/// Build the datagram that deletes a route, without the create flags.
pub fn route_delete(destination: &str, ifindex: u32, table_id: u32, seq: u32) -> (r: Result<
    Vec<u8>,
    String,
>)
    ensures
        r is Err <==> spec_route_dst(destination@) is None,
        r matches Ok(buf) ==> buf@ == route_msg_spec(
            RTM_DELROUTE,
            NLM_F_REQUEST | NLM_F_ACK,
            seq,
            spec_route_dst(destination@)->Some_0,
            ifindex,
            table_id,
        ),
{
    let dst = match route_dst(destination) {
        Ok(n) => n,
        Err(e) => {
            return Err(e);
        },
    };
    Ok(build_route_msg(RTM_DELROUTE, NLM_F_REQUEST | NLM_F_ACK, seq, dst, ifindex, table_id))
}

// ---------------------------------------------------------------------------
// Acknowledgement parsing
// ---------------------------------------------------------------------------

/// How one acknowledgement reply fails: a reply that cannot be read — too
/// short for a netlink header, or an error message too short to carry its
/// code — is malformed, a transport failure; a readable error message
/// carries the (negative) code the kernel sent.
#[derive(Debug, Clone, Copy, PartialEq, Eq, Structural)]
pub enum AckError {
    Malformed,
    Code(i32),
}

/// What one acknowledgement reply means, byte for byte: shorter than a
/// netlink header is malformed; a non-error message acknowledges; an
/// error message must carry its four-byte code, which acknowledges when
/// zero and is surfaced otherwise.
pub open spec fn spec_parse_ack(b: Seq<u8>) -> Result<(), AckError> {
    if b.len() < 16 {
        Err(AckError::Malformed)
    } else if b[4] + b[5] * 256 != NLMSG_ERROR as int {
        Ok(())
    } else if b.len() < 20 {
        Err(AckError::Malformed)
    } else if u32_of_le(b[16], b[17], b[18], b[19]) == 0 {
        Ok(())
    } else {
        Err(AckError::Code(u32_of_le(b[16], b[17], b[18], b[19]) as i32))
    }
}

/// Interpret one acknowledgement reply. Success exactly for a well-formed
/// non-error reply or an error reply whose code is zero; anything
/// malformed is a transport failure.
pub fn parse_ack(reply: &[u8]) -> (r: Result<(), AckError>)
    ensures
        r == spec_parse_ack(reply@),
{
    if reply.len() < 16 {
        return Err(AckError::Malformed);
    }
    let t: u32 = reply[4] as u32 + reply[5] as u32 * 256;
    if t != NLMSG_ERROR as u32 {
        return Ok(());
    }
    if reply.len() < 20 {
        return Err(AckError::Malformed);
    }
    let v: u32 = reply[16] as u32 + reply[17] as u32 * 256 + reply[18] as u32 * 65536 + reply[19]
        as u32 * 16777216;
    if v == 0 {
        return Ok(());
    }
    Err(AckError::Code(v as i32))
}

// ---------------------------------------------------------------------------
// Table-name resolution
// ---------------------------------------------------------------------------

/// What a table name resolves to without any lookup file: the four
/// well-known names, or its own digits.
pub open spec fn spec_resolve_static(name: Seq<char>) -> Option<u32> {
    if name == "default"@ {
        Some(253)
    } else if name == "main"@ {
        Some(254)
    } else if name == "local"@ {
        Some(255)
    } else if name == "unspec"@ {
        Some(0)
    } else if name.len() > 0 && all_digits(name) && dec_value(name) <= u32::MAX {
        Some(dec_value(name) as u32)
    } else {
        None
    }
}

/// Resolve a table name without consulting the lookup file: well-known
/// names and purely numeric text.
pub fn resolve_table_static(table_name: &str) -> (r: Option<u32>)
    ensures
        r == spec_resolve_static(table_name@),
{
    if str_eq(table_name, "default") {
        return Some(253);
    }
    if str_eq(table_name, "main") {
        return Some(254);
    }
    if str_eq(table_name, "local") {
        return Some(255);
    }
    if str_eq(table_name, "unspec") {
        return Some(0);
    }
    match parse_u64(table_name) {
        Some(v) => {
            if v <= u32::MAX as u64 {
                Some(v as u32)
            } else {
                None
            }
        },
        None => None,
    }
}


// ---------------------------------------------------------------------------
// The table-names file
// ---------------------------------------------------------------------------

/// Space, tab or carriage return: what separates the columns of the
/// table-names file.
pub open spec fn is_ws_u(u: u32) -> bool {
    u == 32 || u == 9 || u == 13
}

/// The end of the run of separator characters starting at `i`.
pub open spec fn ws_end(s: Seq<char>, i: int) -> int
    decreases s.len() - i,
{
    if i < 0 || i >= s.len() {
        if i < 0 {
            0
        } else {
            s.len() as int
        }
    } else if is_ws_u(s[i] as u32) {
        ws_end(s, i + 1)
    } else {
        i
    }
}

/// The end of the run of non-separator characters starting at `i`.
pub open spec fn token_end(s: Seq<char>, i: int) -> int
    decreases s.len() - i,
{
    if i < 0 || i >= s.len() {
        if i < 0 {
            0
        } else {
            s.len() as int
        }
    } else if !is_ws_u(s[i] as u32) {
        token_end(s, i + 1)
    } else {
        i
    }
}

/// What the end of a separator run means.
proof fn lemma_ws_end(s: Seq<char>, i: int)
    requires
        0 <= i <= s.len(),
    ensures
        i <= ws_end(s, i) <= s.len(),
        forall|k: int| i <= k < ws_end(s, i) ==> is_ws_u((#[trigger] s[k]) as u32),
        ws_end(s, i) < s.len() ==> !is_ws_u(s[ws_end(s, i)] as u32),
        ws_end(s, i) == i ==> (i >= s.len() || !is_ws_u(s[i] as u32)),
    decreases s.len() - i,
{
    if i < s.len() && is_ws_u(s[i] as u32) {
        lemma_ws_end(s, i + 1);
    }
}

/// What the end of a token means.
proof fn lemma_token_end(s: Seq<char>, i: int)
    requires
        0 <= i <= s.len(),
    ensures
        i <= token_end(s, i) <= s.len(),
        forall|k: int| i <= k < token_end(s, i) ==> !is_ws_u((#[trigger] s[k]) as u32),
        token_end(s, i) < s.len() ==> is_ws_u(s[token_end(s, i)] as u32),
        token_end(s, i) == i ==> (i >= s.len() || is_ws_u(s[i] as u32)),
    decreases s.len() - i,
{
    if i < s.len() && !is_ws_u(s[i] as u32) {
        lemma_token_end(s, i + 1);
    }
}

fn ws_end_exec(s: &str, i: usize) -> (j: usize)
    requires
        i <= s@.len(),
    ensures
        j == ws_end(s@, i as int),
        i <= j <= s@.len(),
{
    let len = s.unicode_len();
    let mut j = i;
    while j < len
        invariant
            i <= j <= len,
            len == s@.len(),
            ws_end(s@, i as int) == ws_end(s@, j as int),
        decreases len - j,
    {
        let u = s.get_char(j) as u32;
        if !(u == 32 || u == 9 || u == 13) {
            return j;
        }
        j = j + 1;
    }
    j
}

fn token_end_exec(s: &str, i: usize) -> (j: usize)
    requires
        i <= s@.len(),
    ensures
        j == token_end(s@, i as int),
        i <= j <= s@.len(),
{
    let len = s.unicode_len();
    let mut j = i;
    while j < len
        invariant
            i <= j <= len,
            len == s@.len(),
            token_end(s@, i as int) == token_end(s@, j as int),
        decreases len - j,
    {
        let u = s.get_char(j) as u32;
        if u == 32 || u == 9 || u == 13 {
            return j;
        }
        j = j + 1;
    }
    j
}

/// What one line of the table-names file says about a name. Nothing when
/// the line is blank, a comment, or carries another name; otherwise the
/// first column read as a number, if it is one.
pub open spec fn line_entry(line: Seq<char>, name: Seq<char>) -> Option<Option<u32>> {
    let t1s = ws_end(line, 0);
    if t1s >= line.len() {
        None
    } else if line[t1s] as u32 == 35 {
        None
    } else {
        let t1e = token_end(line, t1s);
        let t2s = ws_end(line, t1e);
        if t2s >= line.len() {
            None
        } else {
            let t2e = token_end(line, t2s);
            if line.subrange(t2s, t2e) != name {
                None
            } else {
                let tok = line.subrange(t1s, t1e);
                if all_digits(tok) && dec_value(tok) <= u32::MAX {
                    Some(Some(dec_value(tok) as u32))
                } else {
                    Some(None)
                }
            }
        }
    }
}

fn line_entry_exec(line: &str, name: &str) -> (r: Option<Option<u32>>)
    ensures
        r == line_entry(line@, name@),
{
    let len = line.unicode_len();
    let t1s = ws_end_exec(line, 0);
    if t1s >= len {
        return None;
    }
    let u = line.get_char(t1s) as u32;
    if u == 35 {
        return None;
    }
    let t1e = token_end_exec(line, t1s);
    let t2s = ws_end_exec(line, t1e);
    if t2s >= len {
        return None;
    }
    let t2e = token_end_exec(line, t2s);
    let second = line.substring_char(t2s, t2e);
    if !str_eq(second, name) {
        return None;
    }
    let first = line.substring_char(t1s, t1e);
    match parse_u64(first) {
        Some(v) => {
            if v <= u32::MAX as u64 {
                Some(Some(v as u32))
            } else {
                Some(None)
            }
        },
        None => {
            proof {
                lemma_ws_end(line@, 0);
                lemma_token_end(line@, t1s as int);
                assert(!is_ws_u(line@[t1s as int] as u32));
                assert(t1e > t1s);
            }
            Some(None)
        },
    }
}

/// What the table-names file says about a name: the verdict of its first
/// line that carries the name in its second column.
pub open spec fn spec_lookup_rt(lines: Seq<String>, name: Seq<char>) -> Option<Option<u32>>
    decreases lines.len(),
{
    if lines.len() == 0 {
        None
    } else {
        match line_entry(lines[0]@, name) {
            Some(x) => Some(x),
            None => spec_lookup_rt(lines.drop_first(), name),
        }
    }
}

/// Resolve a table name to its numeric id: the four well-known names and
/// numeric text resolve by themselves; anything else is looked up in the
/// lines of the table-names file, matching the second column. Fails
/// exactly when neither applies, or the matching line's first column is
/// not a number.
pub fn resolve_table(table_name: &str, rt_lines: &Vec<String>) -> (r: Result<u32, String>)
    ensures
        spec_resolve_static(table_name@) matches Some(v) ==> r matches Ok(v2) && v2 == v,
        spec_resolve_static(table_name@) is None ==> match spec_lookup_rt(
            rt_lines@,
            table_name@,
        ) {
            Some(Some(v)) => r matches Ok(v2) && v2 == v,
            Some(None) => r is Err,
            None => r is Err,
        },
{
    match resolve_table_static(table_name) {
        Some(v) => Ok(v),
        None => {
            let mut i: usize = 0;
            proof {
                assert(rt_lines@.subrange(0, rt_lines@.len() as int) =~= rt_lines@);
            }
            while i < rt_lines.len()
                invariant
                    0 <= i <= rt_lines@.len(),
                    spec_resolve_static(table_name@) is None,
                    spec_lookup_rt(rt_lines@, table_name@) == spec_lookup_rt(
                        rt_lines@.subrange(i as int, rt_lines@.len() as int),
                        table_name@,
                    ),
                decreases rt_lines@.len() - i,
            {
                let ghost rest = rt_lines@.subrange(i as int, rt_lines@.len() as int);
                proof {
                    assert(rest[0] == rt_lines@[i as int]);
                    assert(rest.drop_first() =~= rt_lines@.subrange(
                        i as int + 1,
                        rt_lines@.len() as int,
                    ));
                }
                match line_entry_exec(rt_lines[i].as_str(), table_name) {
                    Some(Some(v)) => {
                        return Ok(v);
                    },
                    Some(None) => {
                        return Err(String::from_str("Invalid table ID in rt_tables"));
                    },
                    None => {},
                }
                i = i + 1;
            }
            Err(String::from_str("Routing table not found"))
        },
    }
}

/// A line of the table-names file records exactly this id and name in its
/// first two columns.
pub open spec fn entry_matches(line: Seq<char>, table_id: u32, name: Seq<char>) -> bool {
    let t1s = ws_end(line, 0);
    &&& t1s < line.len()
    &&& line[t1s] as u32 != 35
    &&& ({
        let t1e = token_end(line, t1s);
        let t2s = ws_end(line, t1e);
        &&& t2s < line.len()
        &&& line.subrange(t1s, t1e) == u64_dec(table_id as nat)
        &&& line.subrange(t2s, token_end(line, t2s)) == name
    })
}

/// Decide whether the table-names file already records this `<id> <name>`
/// pair; when it does not, hand back the line to append.
pub fn ensure_table(table_id: u32, table_name: &str, rt_lines: &Vec<String>) -> (r: Option<
    String,
>)
    ensures
        r is None <==> exists|i: int|
            0 <= i < rt_lines@.len() && entry_matches(
                (#[trigger] rt_lines@[i])@,
                table_id,
                table_name@,
            ),
        r matches Some(entry) ==> entry@ == u64_dec(table_id as nat) + " "@ + table_name@,
{
    let id_text = u64_to_string(table_id as u64);
    let mut i: usize = 0;
    while i < rt_lines.len()
        invariant
            0 <= i <= rt_lines@.len(),
            id_text@ == u64_dec(table_id as nat),
            forall|k: int|
                0 <= k < i ==> !entry_matches(
                    (#[trigger] rt_lines@[k])@,
                    table_id,
                    table_name@,
                ),
        decreases rt_lines@.len() - i,
    {
        let line = rt_lines[i].as_str();
        let len = line.unicode_len();
        let t1s = ws_end_exec(line, 0);
        let mut matched = false;
        if t1s < len {
            let u = line.get_char(t1s) as u32;
            if u != 35 {
                let t1e = token_end_exec(line, t1s);
                let t2s = ws_end_exec(line, t1e);
                if t2s < len {
                    let t2e = token_end_exec(line, t2s);
                    let first = line.substring_char(t1s, t1e);
                    let second = line.substring_char(t2s, t2e);
                    if str_eq(first, id_text.as_str()) && str_eq(second, table_name) {
                        matched = true;
                    }
                }
            }
        }
        if matched {
            proof {
                assert(entry_matches(rt_lines@[i as int]@, table_id, table_name@));
            }
            return None;
        }
        proof {
            assert(!entry_matches(rt_lines@[i as int]@, table_id, table_name@));
        }
        i = i + 1;
    }
    let mut entry = u64_to_string(table_id as u64);
    entry.append(" ");
    entry.append(table_name);
    proof {
        reveal_strlit(" ");
    }
    Some(entry)
}

} // verus!