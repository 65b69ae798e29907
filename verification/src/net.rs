//! Addresses.

use vstd::prelude::*;

verus! {

/// An EUI-48 MAC address (once called MAC-48).
///
/// Addresses that an administrator may hand out freely have the second-least
/// significant bit of the first octet set: `x2`, `x6`, `xA` or `xE` as first
/// octet.
#[derive(Copy, Clone, Eq, PartialEq, Ord, PartialOrd, Debug, Hash, Default)]
pub struct MacAddress {
    octets: [u8; 6],
}

impl View for MacAddress {
    type V = Seq<u8>;

    /// The six octets, in the order in which they are written.
    closed spec fn view(&self) -> Seq<u8> {
        self.octets@
    }
}

/// The upper-case hexadecimal digit of a value below 16, as an ASCII code.
pub open spec fn hex_digit(value: u8) -> u8
    recommends
        value < 16,
{
    if value < 10 {
        (48 + value) as u8
    } else {
        (55 + value) as u8
    }
}

/// The usual text of a MAC address in ASCII: for each octet its two
/// upper-case hexadecimal digits, with a colon between one octet and the next.
pub open spec fn mac_text(octets: Seq<u8>) -> Seq<u8>
    recommends
        octets.len() == 6,
{
    Seq::new(
        17,
        |i: int|
            if i % 3 == 0 {
                hex_digit(octets[i / 3] / 16)
            } else if i % 3 == 1 {
                hex_digit(octets[i / 3] % 16)
            } else {
                58u8
            },
    )
}

fn hex_digit_of(value: u8) -> (digit: u8)
    requires
        value < 16,
    ensures
        digit == hex_digit(value),
{
    if value < 10 {
        48 + value
    } else {
        55 + value
    }
}

impl MacAddress {
    /// The unspecified address, `00:00:00:00:00:00`.
    pub fn unspecified() -> (mac: MacAddress)
        ensures
            mac@ == seq![0u8, 0u8, 0u8, 0u8, 0u8, 0u8],
    {
        MacAddress::new(0, 0, 0, 0, 0, 0)
    }

    /// The address `a:b:c:d:e:f`.
    pub fn new(a: u8, b: u8, c: u8, d: u8, e: u8, f: u8) -> (mac: MacAddress)
        ensures
            mac@ == seq![a, b, c, d, e, f],
    {
        let mac = MacAddress { octets: [a, b, c, d, e, f] };
        assert(mac@ =~= seq![a, b, c, d, e, f]);
        mac
    }

    /// The six octets of the address.
    pub fn octets(&self) -> (octets: [u8; 6])
        ensures
            octets@ == self@,
    {
        self.octets
    }

    /// The address as text, such as `00:00:5E:00:00:00`, in ASCII.
    pub fn to_text(&self) -> (text: [u8; 17])
        ensures
            text@ == mac_text(self@),
    {
        let mut text = [58u8; 17];
        let mut i: usize = 0;
        while i < 6
            invariant
                i <= 6,
                forall|j: int| 0 <= j < 17 && j >= 3 * i ==> text@[j] == 58u8,
                forall|j: int| 0 <= j < 17 && j < 3 * i ==> text@[j] == mac_text(self@)[j],
            decreases 6 - i,
        {
            let octet: u8 = self.octets[i];
            text[3 * i] = hex_digit_of(octet / 16);
            text[3 * i + 1] = hex_digit_of(octet % 16);
            i += 1;
        }
        assert(text@ =~= mac_text(self@));
        text
    }
}

/// An IPv4 address: four octets, the first being the most significant.
#[derive(Clone, Copy, Debug, PartialEq, Eq, Hash)]
pub struct Ipv4Addr {
    octets: [u8; 4],
}

impl View for Ipv4Addr {
    type V = Seq<u8>;

    /// The four octets, in the order in which they are written.
    closed spec fn view(&self) -> Seq<u8> {
        self.octets@
    }
}

impl Ipv4Addr {
    /// The address `a.b.c.d`.
    pub fn new(a: u8, b: u8, c: u8, d: u8) -> (ip: Ipv4Addr)
        ensures
            ip@ == seq![a, b, c, d],
    {
        let ip = Ipv4Addr { octets: [a, b, c, d] };
        assert(ip@ =~= seq![a, b, c, d]);
        ip
    }

    /// The four octets of the address.
    pub fn octets(&self) -> (octets: [u8; 4])
        ensures
            octets@ == self@,
    {
        self.octets
    }
}

} // verus!
