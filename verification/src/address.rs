//! Addresses of the form `host:port`.

use vstd::prelude::*;
use vstd::string::*;

use crate::text::{all_digits, backward_searches_find_the_last, chars_of, contains_char, decimal,
    digits_value, find_from, find_last, first_at, is_digit, last_before, numbers_are_read_back,
    numerals_are_read_back, parse_unsigned, parts_make_the_text_again, put_together, same_text,
    searches_find_the_first, slice_of, split_on, split_text, stands_at,
    texts_are_split_into_what_they_were_put_together_of, unsigned_value, Text};

verus! {

/// Whether the host of an address stands in brackets.
pub open spec fn is_bracketed(address: Text) -> bool {
    address.len() > 0 && address[0] == '['
}

/// The host and the port of an address, as texts. A host in brackets ends at the first `]:`; any
/// other ends at the last colon.
pub open spec fn address_parts(address: Text) -> Option<(Text, Text)> {
    if is_bracketed(address) {
        let rest = address.skip(1);
        match first_at(rest, seq![']', ':'], 0) {
            Some(at) => Some((rest.take(at), rest.skip(at + 2))),
            None => None,
        }
    } else {
        match last_before(address, ':', address.len() as int) {
            Some(at) => Some((address.take(at), address.skip(at + 1))),
            None => None,
        }
    }
}

/// Takes an address apart.
pub fn split_address(address: &str) -> (parts: Option<(String, String)>)
    ensures
        parts.deep_view() == address_parts(address@),
{
    let chars = chars_of(address);
    if chars.len() > 0 && chars[0] == '[' {
        let rest_text = slice_of(&chars, 1, chars.len());
        assert(rest_text@ =~= address@.skip(1));
        let rest = chars_of(rest_text.as_str());
        let pattern: Vec<char> = vec![']', ':'];
        assert(pattern@ =~= seq![']', ':']);
        match find_from(&rest, &pattern, 0) {
            Some(at) => {
                let host = slice_of(&rest, 0, at);
                let port = slice_of(&rest, at + 2, rest.len());
                assert(host@ =~= rest@.take(at as int));
                assert(port@ =~= rest@.skip(at + 2));
                Some((host, port))
            },
            None => None,
        }
    } else {
        match find_last(&chars, ':') {
            Some(at) => {
                let host = slice_of(&chars, 0, at);
                let port = slice_of(&chars, at + 1, chars.len());
                assert(host@ =~= address@.take(at as int));
                assert(port@ =~= address@.skip(at + 1));
                Some((host, port))
            },
            None => None,
        }
    }
}

/// What is wrong with an address.
#[derive(Clone, Copy, Debug, PartialEq, Eq, Structural)]
pub enum AddressProblem {
    /// It has no port, or it has a scheme or a path.
    NotHostPort,
    /// It has an IPv6 host without brackets.
    BareIpv6,
    EmptyHost,
    /// The port is no number from 1 to 65535.
    Port,
}

impl AddressProblem {
    /// The words for a problem.
    pub open spec fn words(self) -> Text {
        match self {
            AddressProblem::NotHostPort => "must be a valid host:port address"@,
            AddressProblem::BareIpv6 => "IPv6 addresses must be enclosed in brackets"@,
            AddressProblem::EmptyHost => "host must not be empty"@,
            AddressProblem::Port => "port must be between 1 and 65535"@,
        }
    }

    /// The words for a problem.
    pub fn message(self) -> (message: &'static str)
        ensures
            message@ == self.words(),
    {
        match self {
            AddressProblem::NotHostPort => "must be a valid host:port address",
            AddressProblem::BareIpv6 => "IPv6 addresses must be enclosed in brackets",
            AddressProblem::EmptyHost => "host must not be empty",
            AddressProblem::Port => "port must be between 1 and 65535",
        }
    }
}

/// What is wrong with an address, if anything is. One with a slash has a scheme or a path.
pub open spec fn address_problem(address: Text) -> Option<AddressProblem> {
    if address.contains('/') {
        Some(AddressProblem::NotHostPort)
    } else {
        match address_parts(address) {
            None => Some(AddressProblem::NotHostPort),
            Some((host, port)) => if !is_bracketed(address) && host.contains(':') {
                Some(AddressProblem::BareIpv6)
            } else if host.len() == 0 {
                Some(AddressProblem::EmptyHost)
            } else {
                match unsigned_value(port, 65535) {
                    Some(number) if number > 0 => None,
                    _ => Some(AddressProblem::Port),
                }
            },
        }
    }
}

/// Takes an address apart that has neither a scheme nor a path, and whose port can be used.
pub fn validate_host_port(address: &str) -> (outcome: Result<(String, u16), AddressProblem>)
    ensures
        outcome is Ok <==> address_problem(address@) is None,
        outcome matches Err(problem) ==> address_problem(address@) == Some(problem),
        outcome matches Ok((host, port)) ==> (address_parts(address@) matches Some(parts) && host@
            == parts.0 && unsigned_value(parts.1, 65535) == Some(port as nat)),
{
    if contains_char(address, '/') {
        return Err(AddressProblem::NotHostPort);
    }
    let bracketed = starts_with_bracket(address);
    match split_address(address) {
        None => Err(AddressProblem::NotHostPort),
        Some((host, port)) => {
            if !bracketed && contains_char(host.as_str(), ':') {
                return Err(AddressProblem::BareIpv6);
            }
            if host.as_str().is_empty() {
                return Err(AddressProblem::EmptyHost);
            }
            match parse_unsigned(port.as_str(), 65535) {
                Some(number) => {
                    if number != 0 {
                        Ok((host, number as u16))
                    } else {
                        Err(AddressProblem::Port)
                    }
                },
                None => Err(AddressProblem::Port),
            }
        },
    }
}

fn starts_with_bracket(address: &str) -> (bracketed: bool)
    ensures
        bracketed == is_bracketed(address@),
{
    let chars = chars_of(address);
    chars.len() > 0 && chars[0] == '['
}

// ---------------------------------------------------------------------------------------------
// Loopback hosts
// ---------------------------------------------------------------------------------------------

/// A number from 0 to 255 in decimal, without leading zeros.
pub open spec fn is_octet(text: Text) -> bool {
    &&& 1 <= text.len() <= 3
    &&& all_digits(text)
    &&& text.len() > 1 ==> text[0] != '0'
    &&& digits_value(text) <= 255
}

/// The IPv4 addresses from 127.0.0.0 to 127.255.255.255.
pub open spec fn is_ipv4_loopback(host: Text) -> bool {
    let parts = split_on(host, '.');
    &&& parts.len() == 4
    &&& parts[0] == "127"@
    &&& is_octet(parts[1])
    &&& is_octet(parts[2])
    &&& is_octet(parts[3])
}

/// One to four zeros: a group of an IPv6 address that is zero.
pub open spec fn is_zero_group(text: Text) -> bool {
    1 <= text.len() <= 4 && forall|i: int| 0 <= i < text.len() ==> #[trigger] text[i] == '0'
}

/// Up to three zeros and a one: a group of an IPv6 address that is one.
pub open spec fn is_one_group(text: Text) -> bool {
    &&& 1 <= text.len() <= 4
    &&& forall|i: int| 0 <= i < text.len() - 1 ==> #[trigger] text[i] == '0'
    &&& text.last() == '1'
}

/// How many groups the last part of an IPv6 address stands for where the address ends in one:
/// an IPv4 address stands for two. Zero where the address does not end in one.
pub open spec fn final_groups(text: Text) -> int {
    if is_one_group(text) {
        1
    } else if text == "0.0.0.1"@ {
        2
    } else {
        0
    }
}

/// Whether the parts up to `end` are zero groups.
pub open spec fn zeros_before(parts: Seq<Text>, end: int) -> bool {
    forall|i: int| 0 <= i < end ==> is_zero_group(#[trigger] parts[i])
}

/// The texts of the IPv6 address `::1`: eight groups, of which the last is one and the others are
/// zero, where one run of zero groups may be left out.
pub open spec fn is_ipv6_loopback(host: Text) -> bool {
    match first_at(host, seq![':', ':'], 0) {
        None => {
            let parts = split_on(host, ':');
            let last = parts.len() - 1;
            zeros_before(parts, last) && final_groups(parts[last]) > 0 && last + final_groups(
                parts[last],
            ) == 8
        },
        Some(at) => {
            let head = host.take(at);
            let head_parts = split_on(head, ':');
            let head_count = if head.len() == 0 {
                0
            } else {
                head_parts.len() as int
            };
            let tail_parts = split_on(host.skip(at + 2), ':');
            let last = tail_parts.len() - 1;
            &&& zeros_before(head_parts, head_count)
            &&& zeros_before(tail_parts, last)
            &&& final_groups(tail_parts[last]) > 0
            &&& head_count + last + final_groups(tail_parts[last]) <= 7
        },
    }
}

/// Whether a host is this machine itself by name or by address.
pub open spec fn is_loopback(host: Text) -> bool {
    host == "localhost"@ || is_ipv4_loopback(host) || is_ipv6_loopback(host)
}

fn octet(text: &str) -> (valid: bool)
    ensures
        valid == is_octet(text@),
{
    let chars = chars_of(text);
    if chars.len() < 1 || chars.len() > 3 {
        return false;
    }
    if chars[0] == '+' {
        assert(!is_digit(text@[0]));
        return false;
    }
    if chars.len() > 1 && chars[0] == '0' {
        return false;
    }
    match parse_unsigned(text, 255) {
        Some(_) => true,
        None => false,
    }
}

fn ipv4_loopback(host: &str) -> (loopback: bool)
    ensures
        loopback == is_ipv4_loopback(host@),
{
    let parts = split_text(host, '.');
    assert(parts.deep_view().len() == parts.len());
    if parts.len() != 4 {
        return false;
    }
    assert forall|i: int| 0 <= i < 4 implies parts.deep_view()[i] == (#[trigger] parts@[i])@ by {}
    same_text(parts[0].as_str(), "127") && octet(parts[1].as_str()) && octet(parts[2].as_str())
        && octet(parts[3].as_str())
}

fn zero_group(text: &str) -> (zero: bool)
    ensures
        zero == is_zero_group(text@),
{
    let chars = chars_of(text);
    if chars.len() < 1 || chars.len() > 4 {
        return false;
    }
    let mut i: usize = 0;
    while i < chars.len()
        invariant
            chars@ == text@,
            i <= chars.len(),
            forall|j: int| 0 <= j < i ==> #[trigger] text@[j] == '0',
        decreases chars.len() - i,
    {
        if chars[i] != '0' {
            assert(text@[i as int] != '0');
            return false;
        }
        i += 1;
    }
    true
}

fn one_group(text: &str) -> (one: bool)
    ensures
        one == is_one_group(text@),
{
    let chars = chars_of(text);
    if chars.len() < 1 || chars.len() > 4 {
        return false;
    }
    let last: usize = chars.len() - 1;
    let mut i: usize = 0;
    while i < last
        invariant
            chars@ == text@,
            last == chars.len() - 1,
            i <= last,
            forall|j: int| 0 <= j < i ==> #[trigger] text@[j] == '0',
        decreases last - i,
    {
        if chars[i] != '0' {
            assert(text@[i as int] != '0');
            return false;
        }
        i += 1;
    }
    chars[last] == '1'
}

fn groups_at_end(text: &str) -> (groups: usize)
    ensures
        groups == final_groups(text@),
        groups <= 2,
{
    if one_group(text) {
        1
    } else if same_text(text, "0.0.0.1") {
        2
    } else {
        0
    }
}

fn zeros_up_to(parts: &Vec<String>, end: usize) -> (zeros: bool)
    requires
        end <= parts.len(),
    ensures
        zeros == zeros_before(parts.deep_view(), end as int),
{
    let mut i: usize = 0;
    while i < end
        invariant
            i <= end <= parts.len(),
            zeros_before(parts.deep_view(), i as int),
        decreases end - i,
    {
        assert(parts.deep_view()[i as int] == parts@[i as int]@);
        if !zero_group(parts[i].as_str()) {
            return false;
        }
        i += 1;
    }
    true
}

/// A text has at least one part.
proof fn lemma_some_part(text: Text, ch: char)
    ensures
        split_on(text, ch).len() >= 1,
{
}

fn ipv6_loopback(host: &str) -> (loopback: bool)
    ensures
        loopback == is_ipv6_loopback(host@),
{
    let chars = chars_of(host);
    let pattern: Vec<char> = vec![':', ':'];
    assert(pattern@ =~= seq![':', ':']);
    match find_from(&chars, &pattern, 0) {
        None => {
            let parts = split_text(host, ':');
            proof {
                lemma_some_part(host@, ':');
                assert(parts.deep_view().len() == parts.len());
            }
            let last: usize = parts.len() - 1;
            assert(parts.deep_view()[last as int] == parts@[last as int]@);
            let groups: usize = groups_at_end(parts[last].as_str());
            zeros_up_to(&parts, last) && groups > 0 && last <= 7 && last + groups == 8
        },
        Some(at) => {
            let head = slice_of(&chars, 0, at);
            let tail = slice_of(&chars, at + 2, chars.len());
            assert(head@ =~= host@.take(at as int));
            assert(tail@ =~= host@.skip(at + 2));
            let head_parts = split_text(head.as_str(), ':');
            let tail_parts = split_text(tail.as_str(), ':');
            proof {
                lemma_some_part(tail@, ':');
                assert(head_parts.deep_view().len() == head_parts.len());
                assert(tail_parts.deep_view().len() == tail_parts.len());
            }
            let head_count: usize = if head.as_str().is_empty() {
                0
            } else {
                head_parts.len()
            };
            let last: usize = tail_parts.len() - 1;
            assert(tail_parts.deep_view()[last as int] == tail_parts@[last as int]@);
            let groups: usize = groups_at_end(tail_parts[last].as_str());
            zeros_up_to(&head_parts, head_count) && zeros_up_to(&tail_parts, last) && groups > 0
                && head_count <= 7 && last <= 7 && head_count + last + groups <= 7
        },
    }
}

/// Tests whether a host is this machine itself by name or by address.
pub fn host_is_loopback(host: &str) -> (loopback: bool)
    ensures
        loopback == is_loopback(host@),
{
    same_text(host, "localhost") || ipv4_loopback(host) || ipv6_loopback(host)
}

// ---------------------------------------------------------------------------------------------
// Laws
// ---------------------------------------------------------------------------------------------

/// A host and a port make an address that is taken apart into them again: a name or an IPv4
/// address as it is, and any other host in brackets.
pub proof fn addresses_are_taken_apart_again(host: Text, port: nat)
    requires
        host.len() > 0,
        !host.contains('/'),
        1 <= port <= 65535,
    ensures
        !host.contains(':') && host[0] != '[' ==> ({
            let address = host + seq![':'] + decimal(port);
            address_problem(address) is None && address_parts(address) == Some(
                (host, decimal(port)),
            )
        }),
        !host.contains(']') ==> ({
            let address = seq!['['] + host + seq![']', ':'] + decimal(port);
            address_problem(address) is None && address_parts(address) == Some(
                (host, decimal(port)),
            )
        }),
        unsigned_value(decimal(port), 65535) == Some(port),
{
    numbers_are_read_back(port, 65535, 0);
    numerals_are_read_back(port);
    let digits = decimal(port);
    let length = host.len() as int;
    let plain = host + seq![':'] + digits;
    assert forall|i: int| 0 <= i < digits.len() implies digits[i] != ':' && digits[i] != '/'
        && digits[i] != ']' by {
        assert(is_digit(digits[i]));
    }
    assert forall|i: int| 0 <= i < plain.len() implies plain[i] != '/' by {
        if i < length {
            assert(plain[i] == host[i]);
        } else if i > length {
            assert(plain[i] == digits[i - length - 1]);
        }
    }
    backward_searches_find_the_last(plain, ':', plain.len() as int);
    if let Some(at) = last_before(plain, ':', plain.len() as int) {
        if at > length {
            assert(plain[at] == digits[at - length - 1]);
        }
        assert(plain[length] == ':');
        assert(at == length);
        assert(plain.take(at) =~= host);
        assert(plain.skip(at + 1) =~= digits);
    } else {
        assert(plain[length] == ':');
    }
    if !host.contains(']') {
        let wrapped = seq!['['] + host + seq![']', ':'] + digits;
        assert forall|i: int| 0 <= i < wrapped.len() implies wrapped[i] != '/' by {
            if 1 <= i < length + 1 {
                assert(wrapped[i] == host[i - 1]);
            } else if i >= length + 3 {
                assert(wrapped[i] == digits[i - length - 3]);
            }
        }
        let rest = wrapped.skip(1);
        let pattern = seq![']', ':'];
        assert(rest =~= host + pattern + digits);
        searches_find_the_first(rest, pattern, 0);
        assert(stands_at(rest, pattern, length)) by {
            assert(rest.subrange(length, length + 2) =~= pattern);
        }
        if let Some(at) = first_at(rest, pattern, 0) {
            if at < length {
                assert(rest[at + 0] == pattern[0]);
                assert(host[at] == ']');
            }
            assert(at == length);
            assert(rest.take(at) =~= host);
            assert(rest.skip(at + 2) =~= digits);
        }
        assert(is_bracketed(wrapped));
    }
}

/// An address that is accepted has neither a scheme nor a path, and consists of a host that is not
/// empty, a colon, and a port from 1 to 65535. A host with a colon stands in brackets.
pub proof fn accepted_addresses_have_a_host_and_a_port(address: Text)
    requires
        address_problem(address) is None,
    ensures
        !address.contains('/'),
        address_parts(address) matches Some((host, port)) && host.len() > 0 && (unsigned_value(
            port,
            65535,
        ) matches Some(number) && 1 <= number <= 65535) && (if address[0] == '[' {
            address == seq!['['] + host + seq![']', ':'] + port
        } else {
            address == host + seq![':'] + port && !host.contains(':')
        }),
{
    if is_bracketed(address) {
        let rest = address.skip(1);
        searches_find_the_first(rest, seq![']', ':'], 0);
        if let Some(at) = first_at(rest, seq![']', ':'], 0) {
            let pattern = seq![']', ':'];
            assert(rest[at + 0] == pattern[0]);
            assert(rest[at + 1] == pattern[1]);
            assert(address =~= seq!['['] + rest.take(at) + seq![']', ':'] + rest.skip(at + 2));
        }
    } else {
        backward_searches_find_the_last(address, ':', address.len() as int);
        if let Some(at) = last_before(address, ':', address.len() as int) {
            assert(address =~= address.take(at) + seq![':'] + address.skip(at + 1));
        }
        assert(address.len() > 0);
    }
}

/// What is told of an address that is refused is true of it.
pub proof fn told_address_problems_are_real(address: Text)
    ensures
        match address_problem(address) {
            None => true,
            Some(AddressProblem::NotHostPort) => address.contains('/') || address_parts(address)
                is None,
            Some(AddressProblem::BareIpv6) => !(address[0] == '[') && exists|i: int, j: int|
                0 <= i < j < address.len() && #[trigger] address[i] == ':' && #[trigger] address[j]
                    == ':',
            Some(AddressProblem::EmptyHost) => address_parts(address) matches Some(parts)
                && parts.0.len() == 0,
            Some(AddressProblem::Port) => address_parts(address) matches Some(parts) && (
            unsigned_value(parts.1, 65535) is None || unsigned_value(parts.1, 65535) == Some(
                0nat,
            )),
        },
{
    if address_problem(address) == Some(AddressProblem::BareIpv6) {
        backward_searches_find_the_last(address, ':', address.len() as int);
        let at = last_before(address, ':', address.len() as int)->0;
        let host = address.take(at);
        let i = choose|i: int| 0 <= i < host.len() && host[i] == ':';
        assert(address[i] == ':' && address[at] == ':');
    }
}

// ---------------------------------------------------------------------------------------------
// Laws of hosts
// ---------------------------------------------------------------------------------------------

/// An IPv4 address in dots.
pub open spec fn in_dots(a: nat, b: nat, c: nat, d: nat) -> Text {
    put_together(seq![decimal(a), decimal(b), decimal(c), decimal(d)], '.')
}

/// Of the IPv4 addresses, those that start with 127 are this machine itself, and no others are. No
/// number in an address is greater than 255.
#[verifier::spinoff_prover]
pub proof fn ipv4_loopback_addresses_start_with_127(a: nat, b: nat, c: nat, d: nat)
    ensures
        is_loopback(in_dots(a, b, c, d)) <==> a == 127 && b <= 255 && c <= 255 && d <= 255,
{
    let parts = seq![decimal(a), decimal(b), decimal(c), decimal(d)];
    let host = in_dots(a, b, c, d);
    lemma_octet(a);
    lemma_octet(b);
    lemma_octet(c);
    lemma_octet(d);
    assert forall|i: int| 0 <= i < parts.len() implies !(#[trigger] parts[i]).contains('.') by {}
    texts_are_split_into_what_they_were_put_together_of(parts, '.');
    numerals_are_read_back(127);
    assert("127"@ == decimal(127)) by {
        reveal_strlit("127");
        reveal_with_fuel(decimal, 4);
        assert(decimal(127) =~= "127"@);
    }
    reveal_with_fuel(put_together, 5);
    let three = parts.drop_last();
    let two = three.drop_last();
    let one = two.drop_last();
    assert(host =~= decimal(a) + seq!['.'] + decimal(b) + seq!['.'] + decimal(c) + seq!['.']
        + decimal(d)) by {
        assert(one =~= seq![decimal(a)]);
        assert(two =~= seq![decimal(a), decimal(b)]);
        assert(three =~= seq![decimal(a), decimal(b), decimal(c)]);
        assert(put_together(one, '.') =~= decimal(a));
        assert(put_together(two, '.') =~= decimal(a) + seq!['.'] + decimal(b));
        assert(put_together(three, '.') =~= decimal(a) + seq!['.'] + decimal(b) + seq!['.']
            + decimal(c));
    }
    assert(host[0] == decimal(a)[0]);
    assert(is_digit(host[0]));
    reveal_strlit("localhost");
    assert(host != "localhost"@);
    assert forall|i: int| 0 <= i < host.len() implies host[i] != ':' by {
        let first = decimal(a).len();
        let second = first + 1 + decimal(b).len();
        let third = second + 1 + decimal(c).len();
        if i < first {
            assert(host[i] == decimal(a)[i]);
        } else if i == first {
        } else if i < second {
            assert(host[i] == decimal(b)[i - first - 1]);
        } else if i == second {
        } else if i < third {
            assert(host[i] == decimal(c)[i - second - 1]);
        } else if i == third {
        } else {
            assert(host[i] == decimal(d)[i - third - 1]);
        }
    }
    searches_find_the_first(host, seq![':', ':'], 0);
    if let Some(at) = first_at(host, seq![':', ':'], 0) {
        assert(host[at + 0] == seq![':', ':'][0]);
    }
    backward_searches_find_the_last(host, ':', host.len() as int);
    assert(split_on(host, ':') =~= seq![host]);
    if a != 127 {
        assert(decimal(a) != decimal(127));
    }
}

proof fn lemma_octet(number: nat)
    ensures
        is_octet(decimal(number)) <==> number <= 255,
        !decimal(number).contains('.'),
        !decimal(number).contains(':'),
        digits_value(decimal(number)) == number,
        decimal(number).len() > 0,
        all_digits(decimal(number)),
{
    numerals_are_read_back(number);
    reveal_with_fuel(decimal, 4);
    let digits = decimal(number);
    assert forall|i: int| 0 <= i < digits.len() implies digits[i] != '.' && digits[i] != ':' by {
        assert(is_digit(digits[i]));
    }
}

/// A number in an IPv4 address has no leading zeros: it is written as numbers are.
pub proof fn numbers_in_addresses_are_plain(text: Text)
    requires
        is_octet(text),
    ensures
        digits_value(text) <= 255,
        text == decimal(digits_value(text)),
{
    reveal_with_fuel(decimal, 4);
    reveal_with_fuel(digits_value, 4);
    assert forall|i: int| 0 <= i < text.len() implies 48 <= #[trigger] text[i] as int <= 57 by {
        assert(is_digit(text[i]));
    }
    let value = digits_value(text);
    if text.len() == 1 {
        assert(value == text[0] as int - 48);
        assert(text =~= decimal(value));
    } else if text.len() == 2 {
        assert(value == 10 * (text[0] as int - 48) + (text[1] as int - 48));
        assert(text =~= decimal(value));
    } else {
        assert(value == 100 * (text[0] as int - 48) + 10 * (text[1] as int - 48) + (text[2] as int
            - 48));
        assert(value / 10 == 10 * (text[0] as int - 48) + (text[1] as int - 48));
        assert(text =~= decimal(value));
    }
}

/// Whether a group of an IPv6 address is zero: one to four zeros.
pub open spec fn is_nought(group: Text) -> bool {
    group == "0"@ || group == "00"@ || group == "000"@ || group == "0000"@
}

/// Whether a group of an IPv6 address is one: a one after up to three zeros.
pub open spec fn is_unit(group: Text) -> bool {
    group == "1"@ || group == "01"@ || group == "001"@ || group == "0001"@
}

/// Groups are zero and one where their digits say so.
pub proof fn groups_are_what_their_digits_say(group: Text)
    ensures
        is_zero_group(group) <==> is_nought(group),
        is_one_group(group) <==> is_unit(group),
{
    reveal_strlit("0");
    reveal_strlit("00");
    reveal_strlit("000");
    reveal_strlit("0000");
    reveal_strlit("1");
    reveal_strlit("01");
    reveal_strlit("001");
    reveal_strlit("0001");
    if is_zero_group(group) {
        if group.len() == 1 {
            assert(group =~= "0"@);
        } else if group.len() == 2 {
            assert(group =~= "00"@);
        } else if group.len() == 3 {
            assert(group =~= "000"@);
        } else {
            assert(group =~= "0000"@);
        }
    }
    if is_one_group(group) {
        if group.len() == 1 {
            assert(group =~= "1"@);
        } else if group.len() == 2 {
            assert(group =~= "01"@);
        } else if group.len() == 3 {
            assert(group =~= "001"@);
        } else {
            assert(group =~= "0001"@);
        }
    }
}

/// Whether these are groups of an IPv6 address as far as colons go.
pub open spec fn are_groups(groups: Seq<Text>) -> bool {
    forall|i: int|
        0 <= i < groups.len() ==> (#[trigger] groups[i]).len() > 0 && !groups[i].contains(':')
}

/// An IPv6 address in full is this machine itself where its groups are seven zeros and a one. An
/// IPv4 address at its end stands for two groups.
pub proof fn full_ipv6_loopback_addresses_are_one(groups: Seq<Text>)
    requires
        groups.len() > 0,
        are_groups(groups),
    ensures
        is_ipv6_loopback(put_together(groups, ':')) <==> {
            &&& forall|i: int| 0 <= i < groups.len() - 1 ==> is_nought(#[trigger] groups[i])
            &&& {
                ||| groups.len() == 8 && is_unit(groups.last())
                ||| groups.len() == 7 && groups.last() == "0.0.0.1"@
            }
        },
{
    let host = put_together(groups, ':');
    lemma_no_double(groups);
    texts_are_split_into_what_they_were_put_together_of(groups, ':');
    searches_find_the_first(host, seq![':', ':'], 0);
    if let Some(at) = first_at(host, seq![':', ':'], 0) {
        let pattern = seq![':', ':'];
        assert(host[at + 0] == pattern[0]);
        assert(host[at + 1] == pattern[1]);
        assert(host[at] == ':' && host[at + 1] == ':');
    }
    lemma_groups(groups, groups.len() - 1);
}

/// In an IPv6 address a run of zeros may be left out, in one place: it is this machine itself where
/// all its groups are zero but the last one, which is one, and where there are not too many.
#[verifier::spinoff_prover]
pub proof fn short_ipv6_loopback_addresses_are_one(head: Seq<Text>, tail: Seq<Text>)
    requires
        tail.len() > 0,
        are_groups(head),
        are_groups(tail),
    ensures
        is_ipv6_loopback(
            put_together(head, ':') + seq![':', ':'] + put_together(tail, ':'),
        ) <==> {
            &&& forall|i: int| 0 <= i < head.len() ==> is_nought(#[trigger] head[i])
            &&& forall|i: int| 0 <= i < tail.len() - 1 ==> is_nought(#[trigger] tail[i])
            &&& {
                ||| is_unit(tail.last()) && head.len() + tail.len() <= 7
                ||| tail.last() == "0.0.0.1"@ && head.len() + tail.len() <= 6
            }
        },
{
    let front = put_together(head, ':');
    let back = put_together(tail, ':');
    let pattern = seq![':', ':'];
    let host = front + pattern + back;
    let start = front.len() as int;
    if head.len() > 0 {
        lemma_no_double(head);
        texts_are_split_into_what_they_were_put_together_of(head, ':');
    }
    texts_are_split_into_what_they_were_put_together_of(tail, ':');
    searches_find_the_first(host, pattern, 0);
    assert(host.subrange(start, start + 2) =~= pattern);
    assert(stands_at(host, pattern, start));
    let at = first_at(host, pattern, 0)->0;
    assert(first_at(host, pattern, 0) is Some);
    assert(at == start) by {
        assert(host[at + 0] == pattern[0]);
        assert(host[at + 1] == pattern[1]);
        if at < start {
            assert(head.len() > 0);
            assert(front[at] == ':');
            if at + 1 < start {
                assert(front[at + 1] == ':');
            }
        }
    }
    assert(host.take(start) =~= front);
    assert(host.skip(start + 2) =~= back);
    let last = tail.len() - 1;
    let groups = final_groups(tail[last]);
    assert(head.len() == 0 ==> front.len() == 0);
    assert(is_ipv6_loopback(host) <==> zeros_before(head, head.len() as int) && zeros_before(
        tail,
        last,
    ) && groups > 0 && head.len() + last + groups <= 7);
    lemma_groups(head, head.len() as int);
    lemma_groups(tail, last);
    assert(tail.last() == tail[last]);
}

proof fn lemma_groups(groups: Seq<Text>, end: int)
    requires
        end <= groups.len(),
    ensures
        zeros_before(groups, end) <==> forall|i: int|
            0 <= i < end ==> is_nought(#[trigger] groups[i]),
        groups.len() > 0 ==> (is_one_group(groups.last()) <==> is_unit(groups.last())),
        groups.len() > 0 && groups.last() == "0.0.0.1"@ ==> !is_one_group(groups.last()),
{
    assert forall|i: int| 0 <= i < end implies is_zero_group(#[trigger] groups[i]) == is_nought(
        groups[i],
    ) by {
        groups_are_what_their_digits_say(groups[i]);
    }
    if groups.len() > 0 {
        groups_are_what_their_digits_say(groups.last());
    }
    if zeros_before(groups, end) {
        assert forall|i: int| 0 <= i < end implies is_nought(#[trigger] groups[i]) by {
            assert(is_zero_group(groups[i]));
        }
    }
    reveal_strlit("0.0.0.1");
}

proof fn lemma_no_double(groups: Seq<Text>)
    requires
        groups.len() > 0,
        are_groups(groups),
    ensures
        ({
            let text = put_together(groups, ':');
            &&& text.len() > 0
            &&& text[0] != ':'
            &&& text[text.len() - 1] != ':'
            &&& forall|k: int| 0 <= k < text.len() - 1 && #[trigger] text[k] == ':' ==> text[k + 1]
                != ':'
        }),
    decreases groups.len(),
{
    let text = put_together(groups, ':');
    if groups.len() == 1 {
        assert(text == groups[0]);
        assert forall|k: int| 0 <= k < text.len() implies text[k] != ':' by {
            assert(groups[0].contains(text[k]));
        }
    } else {
        let front = groups.drop_last();
        let last = groups.last();
        assert forall|i: int| 0 <= i < front.len() implies (#[trigger] front[i]).len() > 0
            && !front[i].contains(':') by {
            assert(front[i] == groups[i]);
        }
        lemma_no_double(front);
        let start = put_together(front, ':');
        assert(last == groups[groups.len() - 1]);
        assert(text == start.push(':') + last);
        assert forall|k: int| 0 <= k < last.len() implies last[k] != ':' by {
            assert(last.contains(last[k]));
        }
        assert forall|k: int| 0 <= k < text.len() - 1 && #[trigger] text[k] == ':' implies text[k
            + 1] != ':' by {
            if k < start.len() {
                assert(start[k] == ':');
                if k + 1 < start.len() {
                    assert(text[k + 1] == start[k + 1]);
                }
            } else {
                assert(text[k + 1] == last[k - start.len()]);
            }
        }
        assert(text[0] == start[0]);
        assert(text[text.len() - 1] == last[last.len() - 1]);
    }
}

/// Of the names, that is of hosts that are no addresses, only one stands for this machine itself.
pub proof fn only_localhost_names_this_machine(host: Text)
    requires
        !host.contains(':'),
        host.len() == 0 || !is_digit(host[0]),
    ensures
        is_loopback(host) <==> host == "localhost"@,
{
    searches_find_the_first(host, seq![':', ':'], 0);
    if let Some(at) = first_at(host, seq![':', ':'], 0) {
        assert(host[at + 0] == seq![':', ':'][0]);
    }
    backward_searches_find_the_last(host, ':', host.len() as int);
    assert(split_on(host, ':') =~= seq![host]);
    if is_ipv4_loopback(host) {
        let parts = split_on(host, '.');
        parts_make_the_text_again(host, '.');
        reveal_strlit("127");
        reveal_with_fuel(put_together, 5);
        let one = parts.drop_last().drop_last().drop_last();
        assert(put_together(one, '.') == parts[0]);
        assert(host[0] == parts[0][0]);
        assert(is_digit(host[0]));
    }
}

} // verus!
