//! Bluetooth addresses, and bytes as they are logged.
use crate::text;
use vstd::prelude::*;
use vstd::string::*;

verus! {

/// The kind of a Bluetooth address.
#[derive(Debug, Clone, Copy, PartialEq, Eq, Structural)]
pub enum AddressType {
    Public,
    Random,
    PublicId,
    RandomId,
}

/// What a kind of address is called: everything that is not public is random.
pub open spec fn address_type_name(addr_type: AddressType) -> Seq<char> {
    if addr_type == AddressType::Public {
        "public"@
    } else {
        "random"@
    }
}

/// What a kind of address is called.
pub fn ble_addr_type_str(addr_type: AddressType) -> (r: &'static str)
    ensures
        r@ == address_type_name(addr_type),
{
    match addr_type {
        AddressType::Public => "public",
        _ => "random",
    }
}

/// The kind of address with a name.
pub open spec fn address_type_named(name: Seq<char>) -> AddressType {
    if name == "public"@ {
        AddressType::Public
    } else {
        AddressType::Random
    }
}

/// The kind of address with a name.
pub fn parse_addr_type(value: &str) -> (r: AddressType)
    ensures
        r == address_type_named(value@),
{
    if text::same_text(value, "public") {
        AddressType::Public
    } else {
        AddressType::Random
    }
}

/// A public or random address keeps its kind when it is stored by name and read back.
pub proof fn lemma_address_type_is_kept(addr_type: AddressType)
    requires
        addr_type == AddressType::Public || addr_type == AddressType::Random,
    ensures
        address_type_named(address_type_name(addr_type)) == addr_type,
{
    reveal_strlit("public");
    reveal_strlit("random");
    assert("public"@[0] != "random"@[0]);
}

/// An address, which is kept with its last byte first, as it is written: with its first byte
/// first and colons between the bytes.
pub open spec fn address_text(bytes: Seq<u8>) -> Seq<char> {
    text::upper_hex_byte(bytes[5]) + ":"@ + text::upper_hex_byte(bytes[4]) + ":"@
        + text::upper_hex_byte(bytes[3]) + ":"@ + text::upper_hex_byte(bytes[2]) + ":"@
        + text::upper_hex_byte(bytes[1]) + ":"@ + text::upper_hex_byte(bytes[0])
}

/// An address as it is written.
pub fn format_ble_addr(bytes: &[u8; 6]) -> (r: String)
    ensures
        r@ == address_text(bytes@),
{
    let mut out = String::new();
    text::push_upper_hex_byte(&mut out, bytes[5]);
    assert(out@ =~= text::upper_hex_byte(bytes[5]));
    out.append(":");
    text::push_upper_hex_byte(&mut out, bytes[4]);
    out.append(":");
    text::push_upper_hex_byte(&mut out, bytes[3]);
    out.append(":");
    text::push_upper_hex_byte(&mut out, bytes[2]);
    out.append(":");
    text::push_upper_hex_byte(&mut out, bytes[1]);
    out.append(":");
    text::push_upper_hex_byte(&mut out, bytes[0]);
    out
}

/// Whether the radio has given an address: not nothing, and not zeros.
pub open spec fn is_given(address: Option<[u8; 6]>) -> bool {
    address matches Some(a) && !(a@ =~= seq![0u8, 0, 0, 0, 0, 0])
}

fn has_address(address: &Option<[u8; 6]>) -> (r: bool)
    ensures
        r == is_given(*address),
{
    match address {
        Some(a) => {
            let zeros = a[0] == 0 && a[1] == 0 && a[2] == 0 && a[3] == 0 && a[4] == 0 && a[5] == 0;
            assert(zeros <==> a@ =~= seq![0u8, 0, 0, 0, 0, 0]);
            !zeros
        },
        None => false,
    }
}

/// The device's own address: the public one, or else the random one.
pub fn own_ble_address(public: Option<[u8; 6]>, random: Option<[u8; 6]>) -> (r: Option<String>)
    ensures
        if is_given(public) {
            r matches Some(s) && s@ == address_text(public->0@)
        } else if is_given(random) {
            r matches Some(s) && s@ == address_text(random->0@)
        } else {
            r is None
        },
{
    if has_address(&public) {
        match &public {
            Some(a) => {
                return Some(format_ble_addr(a));
            },
            None => {},
        }
    }
    if has_address(&random) {
        match &random {
            Some(a) => {
                return Some(format_ble_addr(a));
            },
            None => {},
        }
    }
    None
}

/// Bytes in hexadecimal digits with blanks between them.
pub open spec fn spaced_hex(bytes: Seq<u8>) -> Seq<char>
    decreases bytes.len(),
{
    if bytes.len() == 0 {
        Seq::empty()
    } else if bytes.len() == 1 {
        text::upper_hex_byte(bytes[0])
    } else {
        spaced_hex(bytes.drop_last()) + " "@ + text::upper_hex_byte(bytes.last())
    }
}

/// Bytes as they are logged.
pub fn hex_bytes(bytes: &[u8]) -> (r: String)
    ensures
        r@ == spaced_hex(bytes@),
{
    let mut out = String::new();
    let mut i: usize = 0;
    while i < bytes.len()
        invariant
            i <= bytes@.len(),
            out@ == spaced_hex(bytes@.take(i as int)),
        decreases bytes.len() - i,
    {
        let ghost before = out@;
        if i > 0 {
            out.append(" ");
        }
        text::push_upper_hex_byte(&mut out, bytes[i]);
        proof {
            let next = bytes@.take(i + 1);
            assert(next.drop_last() =~= bytes@.take(i as int));
            assert(next.last() == bytes[i as int]);
            if i == 0 {
                assert(out@ =~= text::upper_hex_byte(next[0]));
            }
        }
        i = i + 1;
    }
    assert(bytes@.take(i as int) =~= bytes@);
    out
}

} // verus!
