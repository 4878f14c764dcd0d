//! Addresses: the text of IPv4 and IPv6 addresses, and target keys.
//!
//! A target key names the far end of a connection as `host:port`.

use vstd::prelude::*;
use vstd::string::*;

use crate::bytes;
use crate::text;

verus! {

/// A socket address.
#[derive(Clone, Copy, Debug, PartialEq, Eq)]
pub enum PeerAddr {
    V4 { ip: [u8; 4], port: u16 },
    V6 { ip6: [u8; 16], port: u16, flow_info: u32, scope_id: u32 },
}

// ---------------------------------------------------------------------------------------------
// IPv4
// ---------------------------------------------------------------------------------------------

/// Four octets in dotted decimal.
pub open spec fn dotted_text(octets: Seq<u8>) -> Seq<char> {
    text::digits(octets[0] as nat, 10) + seq!['.'] + text::digits(octets[1] as nat, 10) + seq!['.'] + text::digits(
        octets[2] as nat,
        10,
    ) + seq!['.'] + text::digits(octets[3] as nat, 10)
}

/// Appends the four octets that start at `at`, in dotted decimal.
fn put_dotted(out: &mut String, octets: &[u8], at: usize)
    requires
        at + 4 <= octets@.len(),
    ensures
        final(out)@ == old(out)@ + dotted_text(octets@.subrange(at as int, at + 4)),
{
    text::put_number(out, octets[at] as u16, 10);
    out.push('.');
    text::put_number(out, octets[at + 1] as u16, 10);
    out.push('.');
    text::put_number(out, octets[at + 2] as u16, 10);
    out.push('.');
    text::put_number(out, octets[at + 3] as u16, 10);
    assert(out@ =~= old(out)@ + dotted_text(octets@.subrange(at as int, at + 4)));
}

/// The text of an IPv4 address.
pub fn ipv4_text(octets: &[u8]) -> (text: String)
    requires
        octets@.len() == 4,
    ensures
        text@ == dotted_text(octets@),
{
    let mut text = String::new();
    put_dotted(&mut text, octets, 0);
    assert(octets@.subrange(0, 4) =~= octets@);
    text
}

/// Whether `text` has four fields between dots, each of which writes out one of the octets.
pub open spec fn reads_as_ipv4(text: Seq<char>, octets: Seq<u8>) -> bool {
    let fields = text::fields(text, '.');
    &&& fields.len() == 4
    &&& forall|i: int|
        0 <= i < 4 ==> text::writes_number(#[trigger] fields[i], octets[i] as int, 10)
            && text::all_decimal(fields[i]) && text::decimal_value(fields[i]) == octets[i]
}

/// The text of an IPv4 address reads back to its octets: cut at its dots it has four fields, and
/// each is the decimal number of the octet at the same place.
pub proof fn law_ipv4_text_reads_back(octets: Seq<u8>)
    requires
        octets.len() == 4,
    ensures
        reads_as_ipv4(dotted_text(octets), octets),
{
    let d0 = text::digits(octets[0] as nat, 10);
    let d1 = text::digits(octets[1] as nat, 10);
    let d2 = text::digits(octets[2] as nat, 10);
    let d3 = text::digits(octets[3] as nat, 10);
    lemma_digits_hold_no_mark(octets[0] as nat, 10, '.');
    lemma_digits_hold_no_mark(octets[1] as nat, 10, '.');
    lemma_digits_hold_no_mark(octets[2] as nat, 10, '.');
    lemma_digits_hold_no_mark(octets[3] as nat, 10, '.');
    let one = d0 + seq!['.'] + d1;
    let two = one + seq!['.'] + d2;
    text::lemma_one_field(d0, '.');
    text::lemma_next_field(d0, '.', d1);
    text::lemma_next_field(one, '.', d2);
    text::lemma_next_field(two, '.', d3);
    assert(dotted_text(octets) =~= two + seq!['.'] + d3);
    let fields = text::fields(dotted_text(octets), '.');
    assert(fields =~= seq![d0, d1, d2, d3]);
    assert forall|i: int| 0 <= i < 4 implies text::writes_number(
        #[trigger] fields[i],
        octets[i] as int,
        10,
    ) && text::all_decimal(fields[i]) && text::decimal_value(fields[i]) == octets[i] by {
        text::lemma_decimal_round_trip(octets[i] as nat);
        text::law_digits_write_number(octets[i] as nat, 10);
    }
}

/// Different IPv4 addresses have different texts.
pub proof fn law_ipv4_texts_differ(a: Seq<u8>, b: Seq<u8>)
    requires
        a.len() == 4,
        b.len() == 4,
        dotted_text(a) == dotted_text(b),
    ensures
        a == b,
{
    law_ipv4_text_reads_back(a);
    law_ipv4_text_reads_back(b);
    let fields = text::fields(dotted_text(a), '.');
    assert forall|i: int| 0 <= i < 4 implies a[i] == b[i] by {
        assert(text::decimal_value(fields[i]) == a[i]);
        assert(text::decimal_value(fields[i]) == b[i]);
    }
    assert(a =~= b);
}

/// Digits are neither dots nor colons.
proof fn lemma_digits_hold_no_mark(n: nat, base: nat, mark: char)
    requires
        2 <= base <= 16,
        mark == '.' || mark == ':',
    ensures
        !text::digits(n, base).contains(mark),
{
    let number = text::digits(n, base);
    text::law_digits_write_number(n, base);
    if number.contains(mark) {
        let k = choose|k: int| 0 <= k < number.len() && number[k] == mark;
        assert('0' <= number[k] <= '9' || 'a' <= number[k] <= 'f');
    }
}

// ---------------------------------------------------------------------------------------------
// IPv6
// ---------------------------------------------------------------------------------------------

/// The eight 16-bit groups of an IPv6 address.
pub open spec fn groups_of(octets: Seq<u8>) -> Seq<u16> {
    Seq::new(8, |i: int| bytes::be_value(octets.subrange(2 * i, 2 * i + 2)) as u16)
}

/// Whether the groups are those of an IPv4 address mapped into IPv6.
pub open spec fn is_mapped_ipv4(groups: Seq<u16>) -> bool {
    &&& forall|k: int| 0 <= k < 5 ==> groups[k] == 0
    &&& groups[5] == 0xFFFF
}

/// Whether the `len` groups from `start` on are all zero.
pub open spec fn zero_run(groups: Seq<u16>, start: int, len: int) -> bool {
    &&& 0 <= start
    &&& 0 <= len
    &&& start + len <= groups.len()
    &&& forall|k: int| start <= k < start + len ==> groups[k] == 0
}

/// Whether the `len` groups from `start` on are the first among the longest runs of zeros.
pub open spec fn longest_zero_run(groups: Seq<u16>, start: int, len: int) -> bool {
    &&& zero_run(groups, start, len)
    &&& forall|s: int, l: int| #[trigger] zero_run(groups, s, l) ==> l <= len
    &&& forall|s: int| s < start ==> !#[trigger] zero_run(groups, s, len)
}

/// Groups in lower-case hexadecimal with colons between them.
pub open spec fn colon_hex(groups: Seq<u16>) -> Seq<char>
    decreases groups.len(),
{
    if groups.len() == 0 {
        seq![]
    } else if groups.len() == 1 {
        text::digits(groups[0] as nat, 16)
    } else {
        colon_hex(groups.drop_last()) + seq![':'] + text::digits(groups.last() as nat, 16)
    }
}

/// The canonical text of an IPv6 address: the first of the longest runs of two or
/// more zero groups is written `::`, and a mapped IPv4 address ends in dotted decimal.
pub open spec fn canonical_ipv6(octets: Seq<u8>) -> Seq<char> {
    let groups = groups_of(octets);
    let (start, len) = choose|start: int, len: int| longest_zero_run(groups, start, len);
    if is_mapped_ipv4(groups) {
        seq![':', ':', 'f', 'f', 'f', 'f', ':'] + dotted_text(octets.subrange(12, 16))
    } else if len > 1 {
        colon_hex(groups.take(start)) + seq![':', ':'] + colon_hex(groups.skip(start + len))
    } else {
        colon_hex(groups)
    }
}

/// There is one first longest run of zeros, if any group is zero.
proof fn lemma_longest_zero_run_unique(groups: Seq<u16>, s1: int, l1: int, s2: int, l2: int)
    requires
        longest_zero_run(groups, s1, l1),
        longest_zero_run(groups, s2, l2),
    ensures
        l1 == l2,
        s1 == s2,
{
    assert(zero_run(groups, s1, l1));
    assert(zero_run(groups, s2, l2));
    if s1 < s2 {
        assert(!zero_run(groups, s1, l2));
    } else if s2 < s1 {
        assert(!zero_run(groups, s2, l1));
    }
}

/// Appends the groups from `from` to `to` in hexadecimal with colons between them.
fn put_colon_hex(out: &mut String, groups: &Vec<u16>, from: usize, to: usize)
    requires
        from <= to <= groups@.len(),
    ensures
        final(out)@ == old(out)@ + colon_hex(groups@.subrange(from as int, to as int)),
{
    let mut i: usize = from;
    assert(groups@.subrange(from as int, from as int) =~= seq![]);
    assert(out@ =~= old(out)@ + seq![]);
    while i < to
        invariant
            from <= i <= to <= groups@.len(),
            out@ == old(out)@ + colon_hex(groups@.subrange(from as int, i as int)),
        decreases to - i,
    {
        let ghost done = groups@.subrange(from as int, i as int);
        let ghost next = groups@.subrange(from as int, i + 1);
        assert(next.drop_last() =~= done);
        if i > from {
            out.push(':');
        }
        text::put_number(out, groups[i], 16);
        assert(out@ =~= old(out)@ + colon_hex(next));
        i = i + 1;
    }
}

/// The first of the longest runs of zeros in `groups`, as its start and its length.
fn find_longest_zero_run(groups: &Vec<u16>) -> (run: (usize, usize))
    ensures
        longest_zero_run(groups@, run.0 as int, run.1 as int),
{
    let len: usize = groups.len();
    let mut best_start: usize = 0;
    let mut best_len: usize = 0;
    let mut start: usize = 0;
    let mut i: usize = 0;
    while i < len
        invariant
            len == groups@.len(),
            start <= i <= len,
            best_start + best_len <= i,
            zero_run(groups@, best_start as int, best_len as int),
            zero_run(groups@, start as int, i - start),
            start > 0 ==> groups@[start - 1] != 0,
            i - start <= best_len,
            forall|s: int, l: int|
                #[trigger] zero_run(groups@, s, l) && s + l <= i ==> l <= best_len,
            forall|s: int|
                s < best_start ==> !#[trigger] zero_run(groups@, s, best_len as int),
        decreases len - i,
    {
        let ghost old_best = best_len as int;
        let ghost old_start = best_start as int;
        if groups[i] != 0 {
            start = i + 1;
        } else if i + 1 - start > best_len {
            best_start = start;
            best_len = i + 1 - start;
        }
        proof {
            assert forall|s: int, l: int|
                #[trigger] zero_run(groups@, s, l) && s + l <= i + 1 implies l <= best_len by {
                if s + l == i + 1 && l > 0 {
                    assert(groups@[i as int] == 0);
                    if s < start {
                        assert(groups@[start - 1] == 0);
                    }
                }
            }
            assert forall|s: int| s < best_start implies !#[trigger] zero_run(
                groups@,
                s,
                best_len as int,
            ) by {
                if best_len > old_best && zero_run(groups@, s, best_len as int) {
                    assert(s + best_len <= i);
                }
            }
        }
        i = i + 1;
    }
    (best_start, best_len)
}

/// The number in the two octets of the 16-bit group `i` of an IPv6 address.
pub open spec fn group(octets: Seq<u8>, i: int) -> int {
    octets[2 * i] * 256 + octets[2 * i + 1]
}

/// Whether `text` has `count` fields between colons, each of which writes out in hexadecimal one
/// of the groups from `first` on. No groups are written as no text.
pub open spec fn reads_as_groups(
    text: Seq<char>,
    octets: Seq<u8>,
    first: int,
    count: int,
) -> bool {
    let fields = text::fields(text, ':');
    if count == 0 {
        text.len() == 0
    } else {
        &&& fields.len() == count
        &&& forall|i: int|
            0 <= i < count ==> text::writes_number(
                #[trigger] fields[i],
                group(octets, first + i),
                16,
            )
    }
}

/// Whether the `len` groups from `start` on are all zero.
pub open spec fn zero_groups(octets: Seq<u8>, start: int, len: int) -> bool {
    &&& 0 <= start
    &&& 0 <= len
    &&& start + len <= 8
    &&& forall|i: int| start <= i < start + len ==> #[trigger] group(octets, i) == 0
}

/// The text of an IPv6 address reads back to its groups. For an IPv4 address mapped into IPv6 it
/// is `::ffff:` and that address in dotted decimal. Otherwise `run` is the first of the longest
/// runs of zero groups. Where it has two groups or more, the text is the groups before it, two
/// colons, and the groups after it; where it has fewer, all eight groups are written.
pub proof fn law_ipv6_text_reads_back(octets: Seq<u8>) -> (run: (int, int))
    requires
        octets.len() == 16,
    ensures
        ({
            let text = canonical_ipv6(octets);
            let (start, len) = run;
            let mapped = (forall|i: int| 0 <= i < 5 ==> #[trigger] group(octets, i) == 0) && group(
                octets,
                5,
            ) == 0xFFFF;
            &&& zero_groups(octets, start, len)
            &&& forall|s: int, l: int|
                #[trigger] zero_groups(octets, s, l) ==> l < len || (l == len && start <= s)
            &&& mapped ==> text.len() > 7 && text.take(7) == seq![
                ':',
                ':',
                'f',
                'f',
                'f',
                'f',
                ':',
            ] && reads_as_ipv4(text.skip(7), octets.skip(12))
            &&& !mapped && len < 2 ==> reads_as_groups(text, octets, 0, 8)
            &&& !mapped && len >= 2 ==> exists|left: Seq<char>, right: Seq<char>|
                {
                    &&& text == left + seq![':', ':'] + right
                    &&& #[trigger] reads_as_groups(left, octets, 0, start)
                    &&& #[trigger] reads_as_groups(right, octets, start + len, 8 - start - len)
                }
        }),
{
    let groups = groups_of(octets);
    let text = canonical_ipv6(octets);
    lemma_groups(octets);
    lemma_longest_zero_run_exists(groups);
    let (start, len) = choose|start: int, len: int| longest_zero_run(groups, start, len);
    assert(zero_run(groups, start, len));
    assert forall|i: int| start <= i < start + len implies #[trigger] group(octets, i) == 0 by {
        assert(groups[i] == group(octets, i));
    }
    assert forall|s: int, l: int| #[trigger] zero_groups(octets, s, l) implies l < len || (l == len
        && start <= s) by {
        assert forall|k: int| s <= k < s + l implies groups[k] == 0 by {
            assert(group(octets, k) == 0);
        }
        assert(zero_run(groups, s, l));
    }
    let mapped = (forall|i: int| 0 <= i < 5 ==> #[trigger] group(octets, i) == 0) && group(
        octets,
        5,
    ) == 0xFFFF;
    assert(mapped == is_mapped_ipv4(groups)) by {
        assert(groups[5] == group(octets, 5));
        if is_mapped_ipv4(groups) {
            assert forall|i: int| 0 <= i < 5 implies #[trigger] group(octets, i) == 0 by {
                assert(groups[i] == group(octets, i));
            }
        }
        if mapped {
            assert forall|i: int| 0 <= i < 5 implies groups[i] == 0 by {
                assert(group(octets, i) == 0);
            }
        }
    }
    if mapped {
        let last = octets.subrange(12, 16);
        law_ipv4_text_reads_back(last);
        assert(octets.skip(12) =~= last);
        assert(text.take(7) =~= seq![':', ':', 'f', 'f', 'f', 'f', ':']);
        assert(text.skip(7) =~= dotted_text(last));
        text::lemma_decimal_round_trip(last[0] as nat);
    } else if len >= 2 {
        let left = colon_hex(groups.take(start));
        let right = colon_hex(groups.skip(start + len));
        lemma_groups_read_back(groups.take(start), octets, 0);
        lemma_groups_read_back(groups.skip(start + len), octets, start + len);
        assert(text == left + seq![':', ':'] + right);
        assert(reads_as_groups(left, octets, 0, start));
        assert(reads_as_groups(right, octets, start + len, 8 - start - len));
    } else {
        lemma_groups_read_back(groups, octets, 0);
        assert(reads_as_groups(text, octets, 0, 8));
    }
    (start, len)
}

/// The groups hold the numbers in the octets.
proof fn lemma_groups(octets: Seq<u8>)
    requires
        octets.len() == 16,
    ensures
        groups_of(octets).len() == 8,
        forall|i: int| 0 <= i < 8 ==> #[trigger] groups_of(octets)[i] == group(octets, i),
{
    assert forall|i: int| 0 <= i < 8 implies #[trigger] groups_of(octets)[i] == group(
        octets,
        i,
    ) by {
        bytes::law_two_bytes(octets.subrange(2 * i, 2 * i + 2));
    }
}

/// Groups written with colons between them read back one by one.
proof fn lemma_groups_read_back(groups: Seq<u16>, octets: Seq<u8>, first: int)
    requires
        forall|i: int| 0 <= i < groups.len() ==> #[trigger] groups[i] == group(octets, first + i),
    ensures
        reads_as_groups(colon_hex(groups), octets, first, groups.len() as int),
    decreases groups.len(),
{
    if groups.len() > 0 {
        let last = text::digits(groups.last() as nat, 16);
        text::law_digits_write_number(groups.last() as nat, 16);
        lemma_digits_hold_no_mark(groups.last() as nat, 16, ':');
        if groups.len() == 1 {
            text::lemma_one_field(last, ':');
        } else {
            let earlier = groups.drop_last();
            assert forall|i: int| 0 <= i < earlier.len() implies #[trigger] earlier[i] == group(
                octets,
                first + i,
            ) by {
                assert(earlier[i] == groups[i]);
            }
            lemma_groups_read_back(earlier, octets, first);
            text::lemma_next_field(colon_hex(earlier), ':', last);
        }
    }
}

/// There is a first longest run of zeros.
proof fn lemma_longest_zero_run_exists(groups: Seq<u16>)
    ensures
        exists|start: int, len: int| longest_zero_run(groups, start, len),
{
    assert(zero_run(groups, 0, 0));
    let len = lemma_longest_run_len(groups, groups.len());
    let some = choose|s: int| zero_run(groups, s, len);
    let start = lemma_first_run(groups, len, some);
    assert(longest_zero_run(groups, start, len));
}

/// The length of the longest run of zeros that has at most `most` groups.
proof fn lemma_longest_run_len(groups: Seq<u16>, most: nat) -> (len: int)
    requires
        forall|s: int, l: int| #[trigger] zero_run(groups, s, l) ==> l <= most,
    ensures
        exists|s: int| zero_run(groups, s, len),
        forall|s: int, l: int| #[trigger] zero_run(groups, s, l) ==> l <= len,
    decreases most,
{
    if exists|s: int| zero_run(groups, s, most as int) {
        most as int
    } else if most == 0 {
        assert(zero_run(groups, 0, 0));
        0
    } else {
        assert forall|s: int, l: int| #[trigger] zero_run(groups, s, l) implies l <= most - 1 by {
            if l == most {
                assert(zero_run(groups, s, most as int));
            }
        }
        lemma_longest_run_len(groups, (most - 1) as nat)
    }
}

/// The first run of `len` zeros, where there is one at `some`.
proof fn lemma_first_run(groups: Seq<u16>, len: int, some: int) -> (start: int)
    requires
        zero_run(groups, some, len),
    ensures
        zero_run(groups, start, len),
        forall|s: int| s < start ==> !#[trigger] zero_run(groups, s, len),
    decreases some,
{
    if exists|s: int| s < some && zero_run(groups, s, len) {
        let earlier = choose|s: int| s < some && zero_run(groups, s, len);
        lemma_first_run(groups, len, earlier)
    } else {
        some
    }
}

/// The text of an IPv6 address.
pub fn ipv6_text(octets: &[u8]) -> (text: String)
    requires
        octets@.len() == 16,
    ensures
        text@ == canonical_ipv6(octets@),
{
    let mut groups: Vec<u16> = Vec::new();
    let mut i: usize = 0;
    while i < 8
        invariant
            i <= 8,
            octets@.len() == 16,
            groups@ == groups_of(octets@).take(i as int),
        decreases 8 - i,
    {
        groups.push(bytes::get_u16(octets, 2 * i));
        assert(groups@ =~= groups_of(octets@).take(i + 1));
        i = i + 1;
    }
    assert(groups@ =~= groups_of(octets@));
    let mut text = String::new();
    if groups[0] == 0 && groups[1] == 0 && groups[2] == 0 && groups[3] == 0 && groups[4] == 0
        && groups[5] == 0xFFFF {
        text.push(':');
        text.push(':');
        text.push('f');
        text.push('f');
        text.push('f');
        text.push('f');
        text.push(':');
        put_dotted(&mut text, octets, 12);
        assert(text@ =~= canonical_ipv6(octets@));
        return text;
    }
    assert(!is_mapped_ipv4(groups@));
    let (start, len) = find_longest_zero_run(&groups);
    proof {
        let (s, l) = choose|s: int, l: int| longest_zero_run(groups_of(octets@), s, l);
        lemma_longest_zero_run_unique(groups@, start as int, len as int, s, l);
    }
    if len > 1 {
        put_colon_hex(&mut text, &groups, 0, start);
        text.push(':');
        text.push(':');
        put_colon_hex(&mut text, &groups, start + len, 8);
        assert(groups@.subrange(0, start as int) =~= groups@.take(start as int));
        assert(groups@.subrange(start + len, 8) =~= groups@.skip(start + len));
    } else {
        put_colon_hex(&mut text, &groups, 0, 8);
        assert(groups@.subrange(0, 8) =~= groups@);
    }
    assert(text@ =~= canonical_ipv6(octets@));
    text
}

// ---------------------------------------------------------------------------------------------
// Target keys
// ---------------------------------------------------------------------------------------------

/// The target key of a host and a port.
pub open spec fn key_text(host: Seq<char>, port: u16) -> Seq<char> {
    host + seq![':'] + text::digits(port as nat, 10)
}

/// The port in a target key: the number after the last colon, or 0 where no number is there.
pub open spec fn key_port(key: Seq<char>) -> u16 {
    match text::parsed_u16(text::after_last(key, ':')) {
        Some(port) => port,
        None => 0,
    }
}

/// A target key starts with its host; a colon follows, and then the port in decimal.
pub proof fn law_key_holds_host_and_port(host: Seq<char>, port: u16)
    ensures
        ({
            let key = key_text(host, port);
            let colon = host.len() as int;
            &&& key.len() > colon + 1
            &&& key.take(colon) == host
            &&& key[colon] == ':'
            &&& text::writes_number(key.skip(colon + 1), port as int, 10)
        }),
{
    let key = key_text(host, port);
    let colon = host.len() as int;
    text::law_digits_write_number(port as nat, 10);
    assert(key.take(colon) =~= host);
    assert(key.skip(colon + 1) =~= text::digits(port as nat, 10));
}

/// The port of a key is read behind its last colon, and in all of the key where it has none.
/// Where that is no 16-bit number, the port is 0.
pub proof fn law_port_is_behind_last_colon(front: Seq<char>, tail: Seq<char>)
    requires
        !tail.contains(':'),
    ensures
        ({
            let port = match text::parsed_u16(tail) {
                Some(number) => number,
                None => 0u16,
            };
            &&& key_port(front + seq![':'] + tail) == port
            &&& key_port(tail) == port
        }),
{
    text::law_fields_at_the_ends(seq![], front, tail, ':');
}

/// The target key of `host` and `port`.
pub fn target_key(host: &str, port: u16) -> (key: String)
    ensures
        key@ == key_text(host@, port),
{
    let mut key = host.to_owned();
    key.push(':');
    text::put_number(&mut key, port, 10);
    assert(key@ =~= key_text(host@, port));
    key
}

/// The port in the target key `key`.
pub fn target_port(key: &str) -> (port: u16)
    ensures
        port == key_port(key@),
{
    match text::parse_u16(text::last_field(key, ':').as_str()) {
        Some(port) => port,
        None => 0,
    }
}

/// The port of a target key is the one that the key was made with, whatever the host.
pub proof fn law_key_keeps_port(host: Seq<char>, port: u16)
    ensures
        key_port(key_text(host, port)) == port,
{
    let number = text::digits(port as nat, 10);
    let key = key_text(host, port);
    let start = host.len() + 1;
    text::lemma_decimal_round_trip(port as nat);
    assert forall|k: int| start <= k < key.len() implies key[k] != ':' by {
        assert(key[k] == number[k - start]);
        assert(text::is_decimal_digit(number[k - start]));
    }
    text::lemma_after_last(key, ':', start as int);
    assert(key.skip(start as int) =~= number);
    assert(text::is_decimal_digit(number[0]));
}

} // verus!
