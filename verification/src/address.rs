//! IPv6 addresses and their discovery in the kernel's table of interface
//! addresses.

use crate::text::{bytes_equal, decimal_digits, hex_digit, hex_digit_char, push_decimal_digits};
use vstd::prelude::*;
use vstd::slice::slice_subrange;
use vstd::string::*;

verus! {

/// An IPv6 address: eight groups of sixteen bits, the first foremost.
#[derive(Debug, Clone, Copy, PartialEq, Eq, Hash)]
pub struct Ipv6Address {
    segments: [u16; 8],
}

impl View for Ipv6Address {
    type V = Seq<u16>;

    closed spec fn view(&self) -> Seq<u16> {
        self.segments@
    }
}

/// The value of a hexadecimal digit, of either case.
pub open spec fn hex_value(byte: u8) -> Option<int> {
    if 0x30 <= byte <= 0x39 {
        Some(byte - 0x30)
    } else if 0x61 <= byte <= 0x66 {
        Some(byte - 0x57)
    } else if 0x41 <= byte <= 0x46 {
        Some(byte - 0x37)
    } else {
        None
    }
}

/// An address in the table's notation: 32 hexadecimal digits and
/// nothing else.
pub open spec fn is_hex_address(hex: Seq<u8>) -> bool {
    &&& hex.len() == 32
    &&& forall|i: int| 0 <= i < 32 ==> (#[trigger] hex_value(hex[i])) is Some
}

/// The number that group `group` of an address in the table's notation
/// stands for: four digits, the most significant first.
pub open spec fn group_value(hex: Seq<u8>, group: int) -> int {
    let at = |i: int| hex_value(hex[4 * group + i]).unwrap();
    ((at(0) * 16 + at(1)) * 16 + at(2)) * 16 + at(3)
}

/// The groups of an address in the table's notation.
pub open spec fn groups_of_hex(hex: Seq<u8>) -> Seq<u16> {
    Seq::new(8, |group: int| group_value(hex, group) as u16)
}

/// The hexadecimal notation of a natural number, in lowercase and
/// without leading zeros.
pub open spec fn hex_digits(n: nat) -> Seq<char>
    decreases n,
{
    if n < 16 {
        seq![hex_digit(n as int)]
    } else {
        hex_digits(n / 16).push(hex_digit(n as int % 16))
    }
}

/// Groups in hexadecimal, with a colon between neighbours.
pub open spec fn colon_joined(groups: Seq<u16>) -> Seq<char>
    decreases groups.len(),
{
    if groups.len() == 0 {
        Seq::empty()
    } else if groups.len() == 1 {
        hex_digits(groups[0] as nat)
    } else {
        colon_joined(groups.drop_last()) + seq![':'] + hex_digits(groups.last() as nat)
    }
}

/// The `len` groups from `start` on exist and are all zero.
pub open spec fn is_zero_run(groups: Seq<u16>, start: int, len: int) -> bool {
    &&& 0 <= start
    &&& 0 <= len
    &&& start + len <= groups.len()
    &&& forall|i: int| start <= i < start + len ==> groups[i] == 0
}

/// The `len` groups from `start` on are the longest run of zeros, and of
/// the runs of that length the first.
pub open spec fn is_longest_zero_run(groups: Seq<u16>, start: int, len: int) -> bool {
    &&& is_zero_run(groups, start, len)
    &&& forall|a: int, l: int| #[trigger] is_zero_run(groups, a, l) ==> l <= len
    &&& forall|a: int| #[trigger] is_zero_run(groups, a, len) ==> start <= a
}

/// Where the longest run of zeros starts and how long it is.
pub open spec fn longest_zero_run(groups: Seq<u16>) -> (int, int) {
    choose|run: (int, int)| is_longest_zero_run(groups, run.0, run.1)
}

/// The address stands for an IPv4 address: five zero groups, then
/// `ffff`.
pub open spec fn is_ipv4_mapped(groups: Seq<u16>) -> bool {
    &&& groups.len() == 8
    &&& forall|i: int| 0 <= i < 5 ==> groups[i] == 0
    &&& groups[5] == 0xffff
}

/// The four bytes of two groups in decimal, with dots between them.
pub open spec fn dotted_quad(high: u16, low: u16) -> Seq<char> {
    decimal_digits(high as nat / 256) + seq!['.'] + decimal_digits(high as nat % 256) + seq!['.']
        + decimal_digits(low as nat / 256) + seq!['.'] + decimal_digits(low as nat % 256)
}

/// The canonical text of an address. An address that stands for an IPv4
/// address is `::ffff:` and the dotted quad. In any other the longest
/// run of two or more zero groups, the first of equals, shrinks to `::`,
/// and the other groups are written in lowercase hexadecimal without
/// leading zeros, with colons between them.
pub open spec fn canonical_text(groups: Seq<u16>) -> Seq<char> {
    if is_ipv4_mapped(groups) {
        "::ffff:"@ + dotted_quad(groups[6], groups[7])
    } else {
        let (start, len) = longest_zero_run(groups);
        if len > 1 {
            colon_joined(groups.subrange(0, start)) + "::"@ + colon_joined(
                groups.subrange(start + len, groups.len() as int),
            )
        } else {
            colon_joined(groups)
        }
    }
}

/// Where the kernel shows its table of interface addresses.
pub const ADDRESS_TABLE: &'static str = "/proc/net/if_inet6";

/// Why the table of interface addresses could not be read.
#[derive(Debug, Clone, Copy, PartialEq, Eq, Structural)]
pub enum DiscoveryError {
    /// A line of the interface does not begin with 32 hexadecimal digits.
    /// Lines are counted from zero.
    MalformedEntry { line: usize },
}

/// The byte separates the fields of a line.
pub open spec fn is_blank(byte: u8) -> bool {
    byte == 0x20 || byte == 0x09 || byte == 0x0a || byte == 0x0c || byte == 0x0d
}

/// The bytes from `start` up to `end` are the last field of the line:
/// only blanks follow it, none is in it, and it begins the line or
/// follows a blank. A line of blanks has an empty field at its start.
pub open spec fn is_interface_field(line: Seq<u8>, start: int, end: int) -> bool {
    &&& 0 <= start <= end <= line.len()
    &&& forall|i: int| end <= i < line.len() ==> is_blank(#[trigger] line[i])
    &&& forall|i: int| start <= i < end ==> !is_blank(#[trigger] line[i])
    &&& end > 0 ==> !is_blank(line[end - 1])
    &&& start > 0 ==> is_blank(line[start - 1])
}

/// The last field of a line, which holds the name of the interface.
pub open spec fn interface_field(line: Seq<u8>) -> Seq<u8> {
    let (start, end) = choose|field: (int, int)| is_interface_field(line, field.0, field.1);
    line.subrange(start, end)
}

/// The line is of the interface: its last field is the name.
pub open spec fn names_interface(line: Seq<u8>, iface: Seq<u8>) -> bool {
    interface_field(line).len() > 0 && interface_field(line) == iface
}

/// The line begins with `fe80`: its address is link-local.
pub open spec fn is_link_local(line: Seq<u8>) -> bool {
    line.len() >= 4 && line.subrange(0, 4) == seq![0x66u8, 0x65u8, 0x38u8, 0x30u8]
}

/// The line is kept: it is of the interface and not link-local.
pub open spec fn is_retained(line: Seq<u8>, iface: Seq<u8>) -> bool {
    names_interface(line, iface) && !is_link_local(line)
}

/// The address at the start of a line, where the line starts with one.
pub open spec fn line_groups(line: Seq<u8>) -> Option<Seq<u16>> {
    if line.len() >= 32 && is_hex_address(line.subrange(0, 32)) {
        Some(groups_of_hex(line.subrange(0, 32)))
    } else {
        None
    }
}

/// Where the last newline of a text stands, or -1 where it has none.
pub open spec fn last_newline(text: Seq<u8>) -> int
    decreases text.len(),
{
    if text.len() == 0 {
        -1
    } else if text.last() == 0x0a {
        text.len() - 1
    } else {
        last_newline(text.drop_last())
    }
}

/// The lines of a text: what stands between its newlines, before the
/// first and after the last. A text of n newlines has n + 1 lines.
pub open spec fn lines(text: Seq<u8>) -> Seq<Seq<u8>>
    decreases text.len(),
{
    let at = last_newline(text);
    if 0 <= at < text.len() {
        lines(text.subrange(0, at)).push(text.subrange(at + 1, text.len() as int))
    } else {
        seq![text]
    }
}

/// The test that keeps the lines of an interface.
pub open spec fn retained(iface: Seq<u8>) -> spec_fn(Seq<u8>) -> bool {
    |line: Seq<u8>| is_retained(line, iface)
}

/// The groups of the address that a line starts with.
pub open spec fn groups_of_line() -> spec_fn(Seq<u8>) -> Seq<u16> {
    |line: Seq<u8>| line_groups(line).unwrap()
}

/// The addresses of the interface in a table, in the order of its
/// lines and with repetitions.
pub open spec fn interface_addresses(table: Seq<u8>, iface: Seq<u8>) -> Seq<Seq<u16>> {
    lines(table).filter(retained(iface)).map_values(groups_of_line())
}

/// Line `line` of the table is kept and does not start with an address.
pub open spec fn is_malformed_entry(table: Seq<u8>, iface: Seq<u8>, line: int) -> bool {
    &&& 0 <= line < lines(table).len()
    &&& is_retained(lines(table)[line], iface)
    &&& line_groups(lines(table)[line]) is None
}

/// What reading a table gives: the addresses of the interface, or the
/// number of the first kept line that does not start with an address.
pub open spec fn discovery(table: Seq<u8>, iface: Seq<u8>) -> Result<Seq<Seq<u16>>, int> {
    if exists|line: int| is_malformed_entry(table, iface, line) {
        Err(first_malformed_entry(table, iface))
    } else {
        Ok(interface_addresses(table, iface))
    }
}

/// The number of the first malformed line of the interface.
pub open spec fn first_malformed_entry(table: Seq<u8>, iface: Seq<u8>) -> int {
    choose|line: int|
        is_malformed_entry(table, iface, line) && forall|earlier: int|
            earlier < line ==> !is_malformed_entry(table, iface, earlier)
}

/// Only one malformed line is the first.
pub proof fn lemma_first_malformed_entry(table: Seq<u8>, iface: Seq<u8>, line: int)
    requires
        is_malformed_entry(table, iface, line),
        forall|earlier: int| earlier < line ==> !is_malformed_entry(table, iface, earlier),
    ensures
        discovery(table, iface) == Err::<Seq<Seq<u16>>, int>(line),
{
    let first = first_malformed_entry(table, iface);
    assert(is_malformed_entry(table, iface, first) && forall|earlier: int|
        earlier < first ==> !is_malformed_entry(table, iface, earlier));
    if first < line {
        assert(!is_malformed_entry(table, iface, first));
    }
    if line < first {
        assert(!is_malformed_entry(table, iface, line));
    }
}

/// What was read, as plain values.
pub open spec fn discovery_view(found: Result<Vec<Ipv6Address>, DiscoveryError>) -> Result<
    Seq<Seq<u16>>,
    int,
> {
    match found {
        Ok(addresses) => Ok(address_groups(addresses@)),
        Err(DiscoveryError::MalformedEntry { line }) => Err(line as int),
    }
}

/// The groups of each address of a list.
pub open spec fn address_groups(addresses: Seq<Ipv6Address>) -> Seq<Seq<u16>> {
    addresses.map_values(|address: Ipv6Address| address@)
}

/// Only one part of a line is its last field.
pub proof fn lemma_interface_field_unique(line: Seq<u8>, start: int, end: int)
    requires
        is_interface_field(line, start, end),
    ensures
        interface_field(line) == line.subrange(start, end),
{
    let witness = (start, end);
    assert(is_interface_field(line, witness.0, witness.1));
    let (s, e) = choose|field: (int, int)| is_interface_field(line, field.0, field.1);
    assert(is_interface_field(line, s, e));
    if e < end {
        assert(is_blank(line[end - 1]));
    }
    if end < e {
        assert(is_blank(line[e - 1]));
    }
    if s < start {
        assert(!is_blank(line[start - 1]));
    }
    if start < s {
        assert(!is_blank(line[s - 1]));
    }
}

/// The last newline is the one that no newline follows.
pub proof fn lemma_last_newline(text: Seq<u8>, at: int)
    requires
        -1 <= at < text.len(),
        at >= 0 ==> text[at] == 0x0a,
        forall|i: int| at < i < text.len() ==> text[i] != 0x0a,
    ensures
        last_newline(text) == at,
    decreases text.len(),
{
    if text.len() > 0 && at < text.len() - 1 {
        lemma_last_newline(text.drop_last(), at);
    }
}

/// The lines of a text that ends with another line behind a newline are
/// the lines before the newline and that line.
pub proof fn lemma_lines_push(text: Seq<u8>, at: int)
    requires
        0 <= at < text.len(),
        text[at] == 0x0a,
        forall|i: int| at < i < text.len() ==> text[i] != 0x0a,
    ensures
        lines(text) == lines(text.subrange(0, at)).push(text.subrange(at + 1, text.len() as int)),
{
    lemma_last_newline(text, at);
}

/// A text without a newline is one line.
pub proof fn lemma_lines_single(text: Seq<u8>)
    requires
        forall|i: int| 0 <= i < text.len() ==> text[i] != 0x0a,
    ensures
        lines(text) == seq![text],
{
    lemma_last_newline(text, -1);
}

/// The lines of a text up to one of its newlines, or up to its end, are
/// the first lines of the text.
pub proof fn lemma_lines_prefix(text: Seq<u8>, end: int, line: int)
    requires
        0 <= end <= text.len(),
        end < text.len() ==> text[end] == 0x0a,
        0 <= line < lines(text.subrange(0, end)).len(),
    ensures
        line < lines(text).len(),
        lines(text)[line] == lines(text.subrange(0, end))[line],
    decreases text.len(),
{
    if end == text.len() {
        assert(text.subrange(0, end) =~= text);
    } else {
        let at = last_newline(text);
        lemma_last_newline_is_last(text);
        if at > end {
            let inner = text.subrange(0, at);
            assert(inner.subrange(0, end) =~= text.subrange(0, end));
            lemma_lines_prefix(inner, end, line);
        }
    }
}

/// What `last_newline` gives is a newline that no newline follows.
pub proof fn lemma_last_newline_is_last(text: Seq<u8>)
    ensures
        -1 <= last_newline(text) < text.len(),
        last_newline(text) >= 0 ==> text[last_newline(text)] == 0x0a,
        forall|i: int| last_newline(text) < i < text.len() ==> text[i] != 0x0a,
    decreases text.len(),
{
    if text.len() > 0 && text.last() != 0x0a {
        let shorter = text.drop_last();
        lemma_last_newline_is_last(shorter);
        assert forall|i: int| last_newline(text) < i < text.len() implies text[i] != 0x0a by {
            if i < shorter.len() {
                assert(shorter[i] == text[i]);
            }
        }
    }
}

/// Where no line of the table is of the interface, no address is found:
/// the lines of other interfaces are left out, malformed or not.
pub proof fn lemma_other_interfaces_are_left_out(table: Seq<u8>, iface: Seq<u8>)
    requires
        forall|line: int|
            0 <= line < lines(table).len() ==> !names_interface(
                #[trigger] lines(table)[line],
                iface,
            ),
    ensures
        discovery(table, iface) == Ok::<Seq<Seq<u16>>, int>(Seq::empty()),
{
    let rows = lines(table);
    let kept = rows.filter(retained(iface));
    if kept.len() > 0 {
        rows.lemma_filter_pred(retained(iface), 0);
        assert(kept.contains(kept[0]));
        rows.lemma_filter_contains_rev(retained(iface), kept[0]);
        let at = choose|at: int| 0 <= at < rows.len() && rows[at] == kept[0];
        assert(!names_interface(rows[at], iface));
    }
    assert(interface_addresses(table, iface) =~= Seq::empty());
}

/// Of two lines of one interface, one link-local and one not, only the
/// address of the other is found, whichever comes first.
pub proof fn lemma_link_local_line_is_left_out(local: Seq<u8>, other: Seq<u8>, iface: Seq<u8>)
    requires
        forall|i: int| 0 <= i < local.len() ==> local[i] != 0x0a,
        forall|i: int| 0 <= i < other.len() ==> other[i] != 0x0a,
        names_interface(local, iface),
        names_interface(other, iface),
        is_link_local(local),
        !is_link_local(other),
        line_groups(other) is Some,
    ensures
        discovery(local + seq![0x0au8] + other, iface) == Ok::<Seq<Seq<u16>>, int>(
            seq![line_groups(other).unwrap()],
        ),
        discovery(other + seq![0x0au8] + local, iface) == Ok::<Seq<Seq<u16>>, int>(
            seq![line_groups(other).unwrap()],
        ),
{
    lemma_two_lines(local, other);
    lemma_two_lines(other, local);
    let keep = retained(iface);
    let none = Seq::<Seq<u8>>::empty();
    assert(none.push(local).push(other) =~= seq![local, other]);
    assert(none.push(other).push(local) =~= seq![other, local]);
    none.lemma_filter_push(local, keep);
    none.push(local).lemma_filter_push(other, keep);
    none.lemma_filter_push(other, keep);
    none.push(other).lemma_filter_push(local, keep);
    assert(none.filter(keep) =~= none);
    assert(seq![local, other].filter(keep) =~= seq![other]);
    assert(seq![other, local].filter(keep) =~= seq![other]);
    assert(seq![other].map_values(groups_of_line()) =~= seq![line_groups(other).unwrap()]);
}

/// Two texts without a newline, joined by one, are two lines.
pub proof fn lemma_two_lines(first: Seq<u8>, second: Seq<u8>)
    requires
        forall|i: int| 0 <= i < first.len() ==> first[i] != 0x0a,
        forall|i: int| 0 <= i < second.len() ==> second[i] != 0x0a,
    ensures
        lines(first + seq![0x0au8] + second) == seq![first, second],
{
    let text = first + seq![0x0au8] + second;
    let at = first.len() as int;
    lemma_lines_push(text, at);
    assert(text.subrange(0, at) =~= first);
    assert(text.subrange(at + 1, text.len() as int) =~= second);
    lemma_lines_single(first);
    assert(seq![first].push(second) =~= seq![first, second]);
}

/// Tells whether the byte separates the fields of a line.
pub fn is_blank_byte(byte: u8) -> (blank: bool)
    ensures
        blank == is_blank(byte),
{
    byte == 0x20 || byte == 0x09 || byte == 0x0a || byte == 0x0c || byte == 0x0d
}

/// Finds the last field of a line: where it starts and where it ends.
pub fn find_interface_field(line: &[u8]) -> (field: (usize, usize))
    ensures
        is_interface_field(line@, field.0 as int, field.1 as int),
        interface_field(line@) == line@.subrange(field.0 as int, field.1 as int),
{
    let mut end: usize = line.len();
    while end > 0 && is_blank_byte(line[end - 1])
        invariant
            end <= line.len(),
            forall|i: int| end <= i < line.len() ==> is_blank(#[trigger] line@[i]),
        decreases end,
    {
        end -= 1;
    }
    let mut start: usize = end;
    while start > 0 && !is_blank_byte(line[start - 1])
        invariant
            start <= end <= line.len(),
            forall|i: int| start <= i < end ==> !is_blank(#[trigger] line@[i]),
        decreases start,
    {
        start -= 1;
    }
    proof {
        lemma_interface_field_unique(line@, start as int, end as int);
    }
    (start, end)
}

/// Tells whether the line is of the interface `iface`.
pub fn line_names_interface(line: &[u8], iface: &[u8]) -> (named: bool)
    ensures
        named == names_interface(line@, iface@),
{
    let (start, end) = find_interface_field(line);
    start < end && bytes_equal(slice_subrange(line, start, end), iface)
}

/// Tells whether the line begins with `fe80`.
pub fn line_is_link_local(line: &[u8]) -> (local: bool)
    ensures
        local == is_link_local(line@),
{
    if line.len() < 4 {
        return false;
    }
    let local = line[0] == 0x66 && line[1] == 0x65 && line[2] == 0x38 && line[3] == 0x30;
    proof {
        let prefix = line@.subrange(0, 4);
        let link = seq![0x66u8, 0x65u8, 0x38u8, 0x30u8];
        if local {
            assert(prefix =~= link);
        } else {
            assert(prefix[0] == line@[0] && prefix[1] == line@[1] && prefix[2] == line@[2]
                && prefix[3] == line@[3]);
            assert(link[0] == 0x66 && link[1] == 0x65 && link[2] == 0x38 && link[3] == 0x30);
        }
    }
    local
}

/// Reads the address that a line starts with.
pub fn line_address(line: &[u8]) -> (address: Option<Ipv6Address>)
    ensures
        address is Some <==> line_groups(line@) is Some,
        address matches Some(a) ==> line_groups(line@) == Some(a@),
{
    if line.len() < 32 {
        return None;
    }
    Ipv6Address::from_hex(slice_subrange(line, 0, 32))
}

/// Reads the IPv6 addresses of the interface `iface` from `if_inet6`,
/// the kernel's table of interface addresses. A line is kept where its
/// last field is the name of the interface and it does not begin with
/// `fe80`. The addresses come in the order of the lines, with
/// repetitions. Where a kept line does not start with 32 hexadecimal
/// digits, the first such line is reported and no address is given.
pub fn get_ipv6_set_with_iface(if_inet6: &str, iface: &str) -> (found: Result<
    Vec<Ipv6Address>,
    DiscoveryError,
>)
    ensures
        discovery_view(found) == discovery(if_inet6.spec_bytes(), iface.spec_bytes()),
        match found {
            Ok(addresses) => {
                &&& forall|line: int|
                    !is_malformed_entry(if_inet6.spec_bytes(), iface.spec_bytes(), line)
                &&& address_groups(addresses@) == interface_addresses(
                    if_inet6.spec_bytes(),
                    iface.spec_bytes(),
                )
            },
            Err(DiscoveryError::MalformedEntry { line }) => {
                &&& is_malformed_entry(if_inet6.spec_bytes(), iface.spec_bytes(), line as int)
                &&& forall|earlier: int|
                    earlier < line ==> !is_malformed_entry(
                        if_inet6.spec_bytes(),
                        iface.spec_bytes(),
                        earlier,
                    )
            },
        },
{
    let table = if_inet6.as_bytes();
    let name = iface.as_bytes();
    let mut addresses: Vec<Ipv6Address> = Vec::new();
    let mut start: usize = 0;
    let mut line_no: usize = 0;
    let ghost mut seen: Seq<Seq<u8>> = Seq::empty();
    proof {
        reveal(Seq::filter);
        assert(address_groups(addresses@) =~= seen.filter(retained(name@)).map_values(
            groups_of_line(),
        ));
    }
    loop
        invariant_except_break
            start <= table.len(),
            line_no == seen.len(),
            line_no <= start,
            start == 0 ==> seen.len() == 0,
            start > 0 ==> table@[start - 1] == 0x0a && seen == lines(
                table@.subrange(0, start - 1),
            ),
            forall|i: int|
                0 <= i < seen.len() && is_retained(#[trigger] seen[i], name@) ==> line_groups(
                    seen[i],
                ) is Some,
            address_groups(addresses@) == seen.filter(retained(name@)).map_values(
                groups_of_line(),
            ),
        invariant
            table@ == if_inet6.spec_bytes(),
            name@ == iface.spec_bytes(),
        ensures
            lines(table@) == seen,
            forall|i: int|
                0 <= i < seen.len() && is_retained(#[trigger] seen[i], name@) ==> line_groups(
                    seen[i],
                ) is Some,
            address_groups(addresses@) == seen.filter(retained(name@)).map_values(
                groups_of_line(),
            ),
        decreases table.len() - start,
    {
        let mut end: usize = start;
        while end < table.len() && table[end] != 0x0a
            invariant
                start <= end <= table.len(),
                forall|i: int| start <= i < end ==> table@[i] != 0x0a,
            decreases table.len() - end,
        {
            end += 1;
        }
        let line = slice_subrange(table, start, end);
        let ghost upto = table@.subrange(0, end as int);
        proof {
            if start > 0 {
                lemma_lines_push(upto, start - 1);
                assert(upto.subrange(0, start - 1) =~= table@.subrange(0, start - 1));
                assert(upto.subrange(start as int, upto.len() as int) =~= line@);
            } else {
                lemma_lines_single(upto);
                assert(upto =~= line@);
                assert(seen.push(line@) =~= seq![line@]);
            }
            assert(lines(upto) == seen.push(line@));
            seen.lemma_filter_push(line@, retained(name@));
        }
        if line_names_interface(line, name) && !line_is_link_local(line) {
            match line_address(line) {
                Some(address) => {
                    proof {
                        seen.filter(retained(name@)).lemma_push_map_commute(
                            groups_of_line(),
                            line@,
                        );
                        addresses@.lemma_push_map_commute(
                            |address: Ipv6Address| address@,
                            address,
                        );
                    }
                    addresses.push(address);
                },
                None => {
                    proof {
                        lemma_lines_prefix(table@, end as int, line_no as int);
                        assert forall|earlier: int| earlier < line_no implies !is_malformed_entry(
                            table@,
                            name@,
                            earlier,
                        ) by {
                            if 0 <= earlier {
                                lemma_lines_prefix(table@, end as int, earlier);
                            }
                        }
                        lemma_first_malformed_entry(table@, name@, line_no as int);
                    }
                    return Err(DiscoveryError::MalformedEntry { line: line_no });
                },
            }
        }
        proof {
            seen = seen.push(line@);
        }
        if end == table.len() {
            proof {
                assert(upto =~= table@);
            }
            break ;
        }
        start = end + 1;
        line_no += 1;
    }
    Ok(addresses)
}

/// Only one run is the longest and first.
pub proof fn lemma_longest_zero_run_unique(groups: Seq<u16>, start: int, len: int)
    requires
        is_longest_zero_run(groups, start, len),
    ensures
        longest_zero_run(groups) == (start, len),
{
    let witness = (start, len);
    assert(is_longest_zero_run(groups, witness.0, witness.1));
    let run = longest_zero_run(groups);
    assert(is_zero_run(groups, run.0, run.1));
    assert(is_zero_run(groups, start, len));
}

/// Gives the value of a hexadecimal digit, of either case.
pub fn hex_value_of(byte: u8) -> (value: Option<u8>)
    ensures
        value is Some <==> hex_value(byte) is Some,
        value matches Some(v) ==> hex_value(byte) == Some(v as int),
{
    if 0x30 <= byte && byte <= 0x39 {
        Some(byte - 0x30)
    } else if 0x61 <= byte && byte <= 0x66 {
        Some(byte - 0x57)
    } else if 0x41 <= byte && byte <= 0x46 {
        Some(byte - 0x37)
    } else {
        None
    }
}

/// Appends `n` in lowercase hexadecimal, without leading zeros.
pub fn push_hex_digits(text: &mut String, n: u16)
    ensures
        final(text)@ == old(text)@ + hex_digits(n as nat),
    decreases n,
{
    if n >= 16 {
        push_hex_digits(text, n / 16);
    }
    text.push(hex_digit_char((n % 16) as u8));
    assert(text@ =~= old(text)@ + hex_digits(n as nat));
}

/// Appends the groups from `from` up to `to` in hexadecimal, with a colon
/// between neighbours.
fn push_groups(text: &mut String, segments: &[u16; 8], from: usize, to: usize)
    requires
        from <= to <= 8,
    ensures
        final(text)@ == old(text)@ + colon_joined(segments@.subrange(from as int, to as int)),
{
    let mut i: usize = from;
    assert(text@ =~= old(text)@ + colon_joined(segments@.subrange(from as int, i as int)));
    while i < to
        invariant
            from <= i <= to <= 8,
            text@ == old(text)@ + colon_joined(segments@.subrange(from as int, i as int)),
        decreases to - i,
    {
        if i > from {
            text.push(':');
        }
        push_hex_digits(text, segments[i]);
        proof {
            let longer = segments@.subrange(from as int, i + 1);
            assert(longer.drop_last() =~= segments@.subrange(from as int, i as int));
            assert(longer.last() == segments@[i as int]);
            assert(text@ =~= old(text)@ + colon_joined(longer));
        }
        i += 1;
    }
}

impl Ipv6Address {
    /// Makes an address of its eight groups.
    pub fn new(segments: [u16; 8]) -> (address: Self)
        ensures
            address@ == segments@,
    {
        Ipv6Address { segments }
    }

    /// The eight groups of the address.
    pub fn segments(&self) -> (segments: [u16; 8])
        ensures
            segments@ == self@,
    {
        self.segments
    }

    /// Reads an address in the table's notation. Gives an address where
    /// `hex` is 32 hexadecimal digits, and nothing otherwise.
    pub fn from_hex(hex: &[u8]) -> (address: Option<Self>)
        ensures
            address is Some <==> is_hex_address(hex@),
            address matches Some(a) ==> a@ == groups_of_hex(hex@),
    {
        if hex.len() != 32 {
            return None;
        }
        let mut segments: [u16; 8] = [0; 8];
        let mut group: usize = 0;
        while group < 8
            invariant
                hex.len() == 32,
                group <= 8,
                forall|i: int| 0 <= i < 4 * group ==> (#[trigger] hex_value(hex@[i])) is Some,
                forall|g: int| 0 <= g < group ==> segments@[g] == group_value(hex@, g) as u16,
            decreases 8 - group,
        {
            let mut value: u16 = 0;
            let mut digit: usize = 0;
            while digit < 4
                invariant
                    hex.len() == 32,
                    group < 8,
                    digit <= 4,
                    forall|i: int|
                        0 <= i < 4 * group + digit ==> (#[trigger] hex_value(hex@[i])) is Some,
                    digit == 0 ==> value == 0,
                    digit == 1 ==> value == hex_value(hex@[4 * group]).unwrap(),
                    digit == 2 ==> value == hex_value(hex@[4 * group]).unwrap() * 16 + hex_value(
                        hex@[4 * group + 1],
                    ).unwrap(),
                    digit == 3 ==> value == (hex_value(hex@[4 * group]).unwrap() * 16 + hex_value(
                        hex@[4 * group + 1],
                    ).unwrap()) * 16 + hex_value(hex@[4 * group + 2]).unwrap(),
                    digit == 4 ==> value == group_value(hex@, group as int),
                    digit < 4 ==> value < 4096,
                decreases 4 - digit,
            {
                match hex_value_of(hex[4 * group + digit]) {
                    Some(v) => {
                        value = value * 16 + v as u16;
                    },
                    None => {
                        return None;
                    },
                }
                digit += 1;
            }
            segments[group] = value;
            group += 1;
        }
        assert(segments@ =~= groups_of_hex(hex@));
        Some(Ipv6Address { segments })
    }
    /// Finds the longest run of zero groups, the first of equals: where
    /// it starts and how long it is.
    pub fn find_longest_zero_run(&self) -> (run: (usize, usize))
        ensures
            is_longest_zero_run(self@, run.0 as int, run.1 as int),
            longest_zero_run(self@) == (run.0 as int, run.1 as int),
    {
        let mut best_start: usize = 0;
        let mut best_len: usize = 0;
        let mut run_start: usize = 0;
        let mut run_len: usize = 0;
        let mut i: usize = 0;
        while i < 8
            invariant
                i <= 8,
                self@.len() == 8,
                run_len <= i,
                run_len > 0 ==> run_start == i - run_len,
                is_zero_run(self@, i - run_len, run_len as int),
                run_len < i ==> self@[i - run_len - 1] != 0,
                is_zero_run(self@, best_start as int, best_len as int),
                best_start + best_len <= i,
                run_len <= best_len,
                best_len == 0 ==> best_start == 0,
                forall|a: int, l: int| #[trigger]
                    is_zero_run(self@, a, l) && a + l <= i ==> l <= best_len,
                forall|a: int| #[trigger]
                    is_zero_run(self@, a, best_len as int) && a + best_len <= i ==> best_start
                        <= a,
            decreases 8 - i,
        {
            let ghost old_best_len = best_len;
            let ghost old_best_start = best_start;
            let ghost old_run_len = run_len;
            if self.segments[i] == 0 {
                if run_len == 0 {
                    run_start = i;
                }
                run_len += 1;
                if run_len > best_len {
                    best_start = run_start;
                    best_len = run_len;
                }
                proof {
                    assert forall|a: int, l: int| #[trigger]
                        is_zero_run(self@, a, l) && a + l <= i + 1 implies l <= best_len by {
                        if a + l == i + 1 && a < i - old_run_len {
                            assert(self@[i - old_run_len - 1] == 0);
                        }
                    }
                    assert forall|a: int| #[trigger]
                        is_zero_run(self@, a, best_len as int) && a + best_len <= i
                            + 1 implies best_start <= a by {
                        if a + best_len == i + 1 && a < i - old_run_len {
                            assert(self@[i - old_run_len - 1] == 0);
                        }
                    }
                }
            } else {
                run_len = 0;
                proof {
                    assert forall|a: int, l: int| #[trigger]
                        is_zero_run(self@, a, l) && a + l <= i + 1 implies l <= best_len by {
                        if a + l == i + 1 && l > 0 {
                            assert(self@[i as int] == 0);
                        }
                    }
                    assert forall|a: int| #[trigger]
                        is_zero_run(self@, a, best_len as int) && a + best_len <= i
                            + 1 implies best_start <= a by {
                        if a + best_len == i + 1 && best_len > 0 {
                            assert(self@[i as int] == 0);
                        }
                    }
                }
            }
            i += 1;
        }
        proof {
            lemma_longest_zero_run_unique(self@, best_start as int, best_len as int);
        }
        (best_start, best_len)
    }

    /// Tells whether the address stands for an IPv4 address.
    pub fn is_ipv4_mapped(&self) -> (mapped: bool)
        ensures
            mapped == is_ipv4_mapped(self@),
    {
        let s = &self.segments;
        s[0] == 0 && s[1] == 0 && s[2] == 0 && s[3] == 0 && s[4] == 0 && s[5] == 0xffff
    }

    /// Writes the address in its canonical text.
    pub fn to_text(&self) -> (text: String)
        ensures
            text@ == canonical_text(self@),
    {
        let mut text = String::new();
        if self.is_ipv4_mapped() {
            let high: u16 = self.segments[6];
            let low: u16 = self.segments[7];
            text.append("::ffff:");
            push_decimal_digits(&mut text, (high / 256) as u64);
            text.push('.');
            push_decimal_digits(&mut text, (high % 256) as u64);
            text.push('.');
            push_decimal_digits(&mut text, (low / 256) as u64);
            text.push('.');
            push_decimal_digits(&mut text, (low % 256) as u64);
            assert(text@ =~= canonical_text(self@));
        } else {
            let (start, len) = self.find_longest_zero_run();
            if len > 1 {
                push_groups(&mut text, &self.segments, 0, start);
                text.append("::");
                push_groups(&mut text, &self.segments, start + len, 8);
            } else {
                push_groups(&mut text, &self.segments, 0, 8);
                assert(self@.subrange(0, 8) =~= self@);
            }
            assert(text@ =~= canonical_text(self@));
        }
        text
    }
}

} // verus!
