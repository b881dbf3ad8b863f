//! Mask operations for bitfield extraction

use vstd::prelude::*;
use crate::text::{str_eq, dec_string, dec_chars};

verus! {

/// The width in bits of a Solidity type name.
pub open spec fn type_to_mask_spec(s: Seq<char>) -> Option<u64> {
    if s == "bool"@ {
        Some(1)
    } else if s == "uint8"@ || s == "int8"@ {
        Some(8)
    } else if s == "uint16"@ || s == "int16"@ {
        Some(16)
    } else if s == "uint32"@ || s == "int32"@ {
        Some(32)
    } else if s == "uint64"@ || s == "int64"@ {
        Some(64)
    } else if s == "uint128"@ || s == "int128"@ {
        Some(128)
    } else if s == "address"@ {
        Some(160)
    } else if s == "uint256"@ || s == "int256"@ || s == "uint"@ || s == "int"@ {
        Some(256)
    } else {
        None
    }
}

/// The type name of a mask width; widths above 256 are named `big<width>` when forced.
pub open spec fn mask_to_type_spec(num: u64, force: bool) -> Option<Seq<char>> {
    if num == 1 {
        Some("bool"@)
    } else if num == 8 {
        Some("uint8"@)
    } else if num == 16 {
        Some("uint16"@)
    } else if num == 32 {
        Some("uint32"@)
    } else if num == 64 {
        Some("uint64"@)
    } else if num == 128 {
        Some("uint128"@)
    } else if num == 160 {
        Some("address"@)
    } else if num == 256 {
        Some("uint256"@)
    } else if force && num > 256 {
        Some("big"@ + dec_chars(num as nat))
    } else {
        None
    }
}

/// The type name of a width of the table has that width again.
pub proof fn lemma_mask_type_round_trip(n: u64, force: bool)
    requires
        mask_to_type_spec(n, force) is Some,
        n <= 256,
    ensures
        type_to_mask_spec(mask_to_type_spec(n, force)->0) == Some(n),
{
    reveal_strlit("bool");
    reveal_strlit("uint8");
    reveal_strlit("int8");
    reveal_strlit("uint16");
    reveal_strlit("int16");
    reveal_strlit("uint32");
    reveal_strlit("int32");
    reveal_strlit("uint64");
    reveal_strlit("int64");
    reveal_strlit("uint128");
    reveal_strlit("int128");
    reveal_strlit("address");
    reveal_strlit("uint256");
    reveal_strlit("int256");
    reveal_strlit("uint");
    reveal_strlit("int");
    assert("bool"@.len() == 4);
    assert("uint8"@.len() == 5);
    assert("int8"@.len() == 4);
    assert("uint16"@.len() == 6);
    assert("int16"@.len() == 5);
    assert("uint32"@.len() == 6);
    assert("int32"@.len() == 5);
    assert("uint64"@.len() == 6);
    assert("int64"@.len() == 5);
    assert("uint128"@.len() == 7);
    assert("int128"@.len() == 6);
    assert("address"@.len() == 7);
    assert("uint256"@.len() == 7);
    assert("int256"@.len() == 6);
    assert("uint"@.len() == 4);
    assert("int"@.len() == 3);
    assert("uint32"@ != "uint16"@) by {
        assert("uint32"@[4] != "uint16"@[4]);
    }
    assert("uint64"@ != "uint16"@) by {
        assert("uint64"@[4] != "uint16"@[4]);
    }
    assert("uint64"@ != "uint32"@) by {
        assert("uint64"@[4] != "uint32"@[4]);
    }
    assert("uint8"@ != "int16"@) by {
        assert("uint8"@[0] != "int16"@[0]);
    }
    assert("uint8"@ != "int32"@) by {
        assert("uint8"@[0] != "int32"@[0]);
    }
    assert("uint8"@ != "int64"@) by {
        assert("uint8"@[0] != "int64"@[0]);
    }
    assert("address"@ != "uint128"@) by {
        assert("address"@[0] != "uint128"@[0]);
    }
    assert("uint256"@ != "uint128"@) by {
        assert("uint256"@[4] != "uint128"@[4]);
    }
    assert("uint256"@ != "address"@) by {
        assert("uint256"@[0] != "address"@[0]);
    }
}

/// A known type names, through its width, a type of the same width.
pub proof fn lemma_type_width_named(t: Seq<char>)
    requires
        type_to_mask_spec(t) is Some,
    ensures
        mask_to_type_spec(type_to_mask_spec(t)->0, false) is Some,
        type_to_mask_spec(mask_to_type_spec(type_to_mask_spec(t)->0, false)->0) == type_to_mask_spec(t),
{
    lemma_mask_type_round_trip(type_to_mask_spec(t)->0, false);
}

/// Whether bit `i` of `n` is set.
pub open spec fn bit_set(n: u64, i: u64) -> bool {
    (n >> i) & 1 != 0
}

/// `lo` is the index of the lowest set bit of `n`.
pub open spec fn is_lowest_bit(n: u64, lo: u64) -> bool {
    &&& lo < 64
    &&& bit_set(n, lo)
    &&& forall|j: u64| j < lo ==> !#[trigger] bit_set(n, j)
}

/// `hi` is the index of the highest set bit of `n`.
pub open spec fn is_highest_bit(n: u64, hi: u64) -> bool {
    &&& hi < 64
    &&& bit_set(n, hi)
    &&& forall|j: u64| hi < j < 64 ==> !#[trigger] bit_set(n, j)
}

/// The byte-aligned field `(length, position)` that covers the set bits
/// of `n`, from the lowest to the highest.
pub open spec fn byte_field(lo: u64, hi: u64) -> (u64, u64) {
    (((hi - hi % 8 + 8) - (lo - lo % 8)) as u64, (lo - lo % 8) as u64)
}

/// Convert a type name to its bit mask
pub fn type_to_mask(s: &str) -> (r: Option<u64>)
    ensures
        r == type_to_mask_spec(s@),
{
    if str_eq(s, "bool") {
        Some(1)
    } else if str_eq(s, "uint8") || str_eq(s, "int8") {
        Some(8)
    } else if str_eq(s, "uint16") || str_eq(s, "int16") {
        Some(16)
    } else if str_eq(s, "uint32") || str_eq(s, "int32") {
        Some(32)
    } else if str_eq(s, "uint64") || str_eq(s, "int64") {
        Some(64)
    } else if str_eq(s, "uint128") || str_eq(s, "int128") {
        Some(128)
    } else if str_eq(s, "address") {
        Some(160)
    } else if str_eq(s, "uint256") || str_eq(s, "int256") || str_eq(s, "uint") || str_eq(s, "int") {
        Some(256)
    } else {
        None
    }
}

/// Convert a mask size to a type name
pub fn mask_to_type(num: u64, force: bool) -> (r: Option<String>)
    ensures
        match r {
            Some(t) => mask_to_type_spec(num, force) == Some(t@),
            None => mask_to_type_spec(num, force) is None,
        },
{
    let lookup: [(u64, &str); 8] = [
        (1, "bool"),
        (8, "uint8"),
        (16, "uint16"),
        (32, "uint32"),
        (64, "uint64"),
        (128, "uint128"),
        (160, "address"),
        (256, "uint256"),
    ];
    let mut k: usize = 0;
    while k < 8
        invariant
            k <= 8,
            lookup@ == seq![
                (1u64, "bool"),
                (8u64, "uint8"),
                (16u64, "uint16"),
                (32u64, "uint32"),
                (64u64, "uint64"),
                (128u64, "uint128"),
                (160u64, "address"),
                (256u64, "uint256"),
            ],
            forall|j: int| 0 <= j < k ==> lookup@[j].0 != num,
        decreases 8 - k,
    {
        let (mask, name) = lookup[k];
        if mask == num {
            return Some(String::from_str(name));
        }
        k += 1;
    }
    if force && num > 256 {
        let mut s = String::from_str("big");
        let d = dec_string(num as u128);
        s.append(d.as_str());
        return Some(s);
    }
    None
}

/// Find a byte-aligned mask that encompasses the set bits of the number,
/// as `(length, position)` in bits.
pub fn find_mask(num: u64) -> (r: Option<(u64, u64)>)
    ensures
        num == 0 ==> r == Some((0u64, 0u64)),
        num != 0 ==> exists|lo: u64, hi: u64|
            #![trigger is_lowest_bit(num, lo), is_highest_bit(num, hi)]
            is_lowest_bit(num, lo) && is_highest_bit(num, hi) && r == Some(byte_field(lo, hi)),
{
    if num == 0 {
        return Some((0, 0));
    }
    let mut i: u64 = 0;
    assert(num >> 0u64 == num) by (bit_vector);
    while i < 64 && (num >> i & 1) == 0
        invariant
            i < 64,
            num >> i != 0,
            forall|j: u64| j < i ==> !#[trigger] bit_set(num, j),
        decreases 64 - i,
    {
        assert(i < 64 && (num >> i) != 0 && (num >> i) & 1 == 0 ==> i + 1 < 64 && (num >> ((i
            + 1) as u64)) != 0) by (bit_vector);
        i += 1;
    }
    let lo = i;
    assert(bit_set(num, lo));
    let mask_pos = i - i % 8;
    let mut mask_pos_plus_len: u64 = 64;
    let ghost mut hi: u64 = lo;
    while i < 64
        invariant
            lo <= i <= 64,
            lo < 64,
            is_lowest_bit(num, lo),
            i == lo ==> mask_pos_plus_len == 64,
            i > lo ==> lo <= hi < i && bit_set(num, hi) && mask_pos_plus_len == hi - hi % 8 + 8,
            i > lo ==> forall|j: u64| hi < j < i ==> !#[trigger] bit_set(num, j),
        decreases 64 - i,
    {
        if (num >> i & 1) != 0 {
            mask_pos_plus_len = i - i % 8 + 8;
            proof {
                hi = i;
            }
        }
        i += 1;
    }
    assert(is_highest_bit(num, hi));
    while mask_pos_plus_len < 64 && (num >> mask_pos_plus_len & 1) != 0
        invariant
            is_highest_bit(num, hi),
            mask_pos_plus_len == hi - hi % 8 + 8,
        decreases 64 - mask_pos_plus_len,
    {
        assert(bit_set(num, mask_pos_plus_len));
        mask_pos_plus_len += 8;
    }
    let len = mask_pos_plus_len - mask_pos;
    if len == 0 || mask_pos >= 64 {
        return None;
    }
    assert(is_lowest_bit(num, lo) && is_highest_bit(num, hi));
    Some((len, mask_pos))
}

} // verus!
