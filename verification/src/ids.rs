//! Content-addressed identifiers: node, contract and schema ids, secret
//! seals, and the node-outpoint reference `"{node_id}/{type}/{output}"`.

use vstd::prelude::*;
use vstd::string::StrSliceExecFns;

verus! {

/// Unique node (genesis, extension or state transition) identifier: the
/// tagged commitment hash of the node's strict encoding.
#[derive(Clone, Copy, PartialEq, Eq, Debug, Hash)]
pub struct NodeId(pub [u8; 32]);

/// Unique contract identifier: byte-equal to the contract's genesis
/// [`NodeId`].
#[derive(Clone, Copy, PartialEq, Eq, Debug, Hash)]
pub struct ContractId(pub [u8; 32]);

/// Unique schema identifier: the commitment hash of the schema's strict
/// encoding.
#[derive(Clone, Copy, PartialEq, Eq, Debug, Hash)]
pub struct SchemaId(pub [u8; 32]);

/// The concealed form of a revealed seal: the tagged commitment hash of
/// the seal's strict encoding.
#[derive(Clone, Copy, PartialEq, Eq, Debug, Hash)]
pub struct SecretSeal(pub [u8; 32]);

impl ContractId {
    /// The raw 32 bytes carried into the Base58 human-readable form.
    pub fn to_baid58_payload(&self) -> (r: [u8; 32])
        ensures
            r == self.0,
    {
        self.0
    }
}

// ---------------------------------------------------------------- byte equality and order

/// Whether two 32-byte arrays hold the same bytes.
pub fn bytes32_eq(a: &[u8; 32], b: &[u8; 32]) -> (r: bool)
    ensures
        r <==> a@ =~= b@,
{
    let mut i: usize = 0;
    while i < 32
        invariant
            i <= 32,
            forall|j: int| 0 <= j < i ==> a@[j] == b@[j],
        decreases 32 - i,
    {
        if a[i] != b[i] {
            return false;
        }
        i = i + 1;
    }
    true
}

/// Lexicographic byte order of two equal-length byte strings, reading
/// from the first byte: the order used for map keys of id type.
pub open spec fn lex_cmp(a: Seq<u8>, b: Seq<u8>) -> core::cmp::Ordering
    decreases a.len(),
{
    if a.len() == 0 || b.len() == 0 {
        core::cmp::Ordering::Equal
    } else if a[0] != b[0] {
        if a[0] < b[0] {
            core::cmp::Ordering::Less
        } else {
            core::cmp::Ordering::Greater
        }
    } else {
        lex_cmp(a.drop_first(), b.drop_first())
    }
}

/// Compares two 32-byte arrays in lexicographic byte order.
pub fn bytes32_cmp(a: &[u8; 32], b: &[u8; 32]) -> (r: core::cmp::Ordering)
    ensures
        r == lex_cmp(a@, b@),
{
    let mut i: usize = 0;
    proof {
        assert(a@.skip(0) =~= a@);
        assert(b@.skip(0) =~= b@);
    }
    while i < 32
        invariant
            i <= 32,
            forall|j: int| 0 <= j < i ==> a@[j] == b@[j],
            lex_cmp(a@, b@) == lex_cmp(a@.skip(i as int), b@.skip(i as int)),
        decreases 32 - i,
    {
        proof {
            assert(a@.skip(i as int)[0] == a@[i as int]);
            assert(b@.skip(i as int)[0] == b@[i as int]);
        }
        if a[i] < b[i] {
            return core::cmp::Ordering::Less;
        }
        if a[i] > b[i] {
            return core::cmp::Ordering::Greater;
        }
        proof {
            assert(a@.skip(i as int).drop_first() =~= a@.skip(i + 1));
            assert(b@.skip(i as int).drop_first() =~= b@.skip(i + 1));
        }
        i = i + 1;
    }
    proof {
        assert(a@.skip(32) =~= Seq::<u8>::empty());
        assert(b@.skip(32) =~= Seq::<u8>::empty());
    }
    core::cmp::Ordering::Equal
}

// ---------------------------------------------------------------- hex

/// Why a hexadecimal id failed to parse.
#[derive(Clone, Copy, PartialEq, Eq, Structural, Debug)]
pub enum HexError {
    /// The string does not hold exactly 64 hexadecimal digits.
    InvalidLength,
    /// A character is not a hexadecimal digit.
    InvalidChar,
}

/// Whether `c` is a hexadecimal digit, in either case.
pub open spec fn is_hex_digit(c: char) -> bool {
    ('0' <= c && c <= '9') || ('a' <= c && c <= 'f') || ('A' <= c && c <= 'F')
}

/// The value of the hexadecimal digit `c`.
pub open spec fn hex_val(c: char) -> u8 {
    if '0' <= c && c <= '9' {
        (c as int - '0' as int) as u8
    } else if 'a' <= c && c <= 'f' {
        (c as int - 'a' as int + 10) as u8
    } else {
        (c as int - 'A' as int + 10) as u8
    }
}

/// The 32 bytes denoted by 64 hexadecimal digits, two digits a byte, or
/// `None` where the string is not exactly that.
pub open spec fn spec_parse_hex32(s: Seq<char>) -> Option<Seq<u8>> {
    if s.len() == 64 && (forall|i: int| 0 <= i < 64 ==> is_hex_digit(s[i])) {
        Some(Seq::new(32, |k: int| (16 * hex_val(s[2 * k]) + hex_val(s[2 * k + 1])) as u8))
    } else {
        None
    }
}

/// The value of the hexadecimal digit at `c`, or 255 where `c` is none.
fn hex_digit(c: char) -> (r: u8)
    ensures
        is_hex_digit(c) ==> r == hex_val(c) && r < 16,
        !is_hex_digit(c) ==> r == 255,
{
    let v = c as u32;
    if 48 <= v && v <= 57 {
        (v - 48) as u8
    } else if 97 <= v && v <= 102 {
        (v - 97 + 10) as u8
    } else if 65 <= v && v <= 70 {
        (v - 65 + 10) as u8
    } else {
        255
    }
}

/// Parses exactly 64 hexadecimal digits into 32 bytes.
pub fn parse_hex32(s: &str) -> (r: Result<[u8; 32], HexError>)
    ensures
        match r {
            Ok(b) => spec_parse_hex32(s@) == Some(b@),
            Err(HexError::InvalidLength) => s@.len() != 64,
            Err(HexError::InvalidChar) => s@.len() == 64 && spec_parse_hex32(s@) is None,
        },
{
    let n = s.unicode_len();
    if n != 64 {
        return Err(HexError::InvalidLength);
    }
    let mut b: [u8; 32] = [0; 32];
    let mut k: usize = 0;
    while k < 32
        invariant
            k <= 32,
            s@.len() == 64,
            forall|i: int| 0 <= i < 2 * k ==> is_hex_digit(s@[i]),
            forall|j: int| 0 <= j < k ==> b@[j] == (16 * hex_val(s@[2 * j]) + hex_val(
                s@[2 * j + 1],
            )) as u8,
            b@.len() == 32,
        decreases 32 - k,
    {
        let hi = hex_digit(s.get_char(2 * k));
        let lo = hex_digit(s.get_char(2 * k + 1));
        if hi == 255 || lo == 255 {
            return Err(HexError::InvalidChar);
        }
        b.set(k, 16 * hi + lo);
        k = k + 1;
    }
    assert(b@ =~= spec_parse_hex32(s@)->Some_0);
    Ok(b)
}

impl NodeId {
    /// Parses the lowercase- or uppercase-hex form of a node id.
    pub fn from_str(s: &str) -> (r: Result<NodeId, HexError>)
        ensures
            match r {
                Ok(id) => spec_parse_hex32(s@) == Some(id.0@),
                Err(_) => spec_parse_hex32(s@) is None,
            },
    {
        match parse_hex32(s) {
            Ok(b) => Ok(NodeId(b)),
            Err(e) => Err(e),
        }
    }
}

// ---------------------------------------------------------------- decimal

/// Why a decimal number failed to parse.
#[derive(Clone, Copy, PartialEq, Eq, Structural, Debug)]
pub enum IntParseError {
    /// The string is empty (or holds only a sign).
    Empty,
    /// A character is not a decimal digit.
    InvalidDigit,
    /// The value does not fit the target width.
    Overflow,
}

/// Whether `c` is a decimal digit.
pub open spec fn is_dec_digit(c: char) -> bool {
    '0' <= c && c <= '9'
}

/// The number denoted by a string of decimal digits, most significant
/// first.
pub open spec fn dec_value(s: Seq<char>) -> int
    decreases s.len(),
{
    if s.len() == 0 {
        0
    } else {
        10 * dec_value(s.drop_last()) + (s.last() as int - '0' as int)
    }
}

/// A longer digit string never denotes a smaller number.
proof fn lemma_dec_value_mono(s: Seq<char>, i: int)
    requires
        0 <= i <= s.len(),
        forall|j: int| 0 <= j < s.len() ==> is_dec_digit(s[j]),
    ensures
        dec_value(s.take(i)) <= dec_value(s),
        dec_value(s) >= 0,
    decreases s.len(),
{
    if s.len() == 0 {
        assert(s.take(i) =~= s);
    } else {
        assert(s.drop_last() =~= s.take(s.len() - 1));
        assert(forall|j: int|
            0 <= j < s.len() - 1 ==> is_dec_digit(#[trigger] s.drop_last()[j]));
        assert(is_dec_digit(s.last()));
        if i == s.len() {
            assert(s.take(i) =~= s);
            lemma_dec_value_mono(s.drop_last(), s.len() - 1);
        } else {
            lemma_dec_value_mono(s.drop_last(), i);
            assert(s.drop_last().take(i) =~= s.take(i));
        }
    }
}

/// The digit part of a decimal string: everything after an optional
/// leading `+`.
pub open spec fn spec_digits(s: Seq<char>) -> Seq<char> {
    if s.len() > 0 && s[0] == '+' {
        s.drop_first()
    } else {
        s
    }
}

/// Whether every character of `d` is a decimal digit.
pub open spec fn all_dec_digits(d: Seq<char>) -> bool {
    forall|i: int| 0 <= i < d.len() ==> is_dec_digit(#[trigger] d[i])
}

/// The `u16` denoted by a decimal string with an optional leading `+`,
/// or `None` where the string is empty, has a stray character, or
/// overflows.
pub open spec fn spec_parse_u16(s: Seq<char>) -> Option<u16> {
    if spec_digits(s).len() > 0 && all_dec_digits(spec_digits(s)) && dec_value(spec_digits(s))
        <= u16::MAX {
        Some(dec_value(spec_digits(s)) as u16)
    } else {
        None
    }
}

/// Parses a decimal `u16` with an optional leading `+`, as the standard
/// integer parser does.
pub fn parse_u16(s: &str) -> (r: Result<u16, IntParseError>)
    ensures
        match r {
            Ok(v) => spec_parse_u16(s@) == Some(v),
            Err(_) => spec_parse_u16(s@) is None,
        },
{
    let n = s.unicode_len();
    let mut start: usize = 0;
    if n > 0 && s.get_char(0) == '+' {
        start = 1;
    }
    let ghost digits: Seq<char> = spec_digits(s@);
    proof {
        assert(digits =~= s@.skip(start as int));
    }
    if n == start {
        return Err(IntParseError::Empty);
    }
    let mut acc: u32 = 0;
    let mut i: usize = start;
    while i < n
        invariant
            start <= i <= n,
            n == s@.len(),
            digits == spec_digits(s@),
            digits =~= s@.skip(start as int),
            forall|j: int| start <= j < i ==> is_dec_digit(s@[j]),
            acc == dec_value(digits.take(i - start)),
            acc <= u16::MAX,
        decreases n - i,
    {
        let c = s.get_char(i);
        let v = c as u32;
        if !(48 <= v && v <= 57) {
            proof {
                assert(!is_dec_digit(digits[i - start]));
                assert(!all_dec_digits(spec_digits(s@)));
            }
            return Err(IntParseError::InvalidDigit);
        }
        proof {
            assert(digits.take(i + 1 - start).drop_last() =~= digits.take(i - start));
            assert(digits.take(i + 1 - start).last() == s@[i as int]);
        }
        acc = acc * 10 + (v - 48);
        proof {
            assert(acc == dec_value(digits.take(i + 1 - start)));
        }
        if acc > 65535 {
            proof {
                if all_dec_digits(digits) {
                    lemma_dec_value_mono(digits, i + 1 - start);
                }
            }
            return Err(IntParseError::Overflow);
        }
        i = i + 1;
    }
    proof {
        assert(digits.take(n - start) =~= digits);
        assert forall|j: int| 0 <= j < digits.len() implies is_dec_digit(#[trigger] digits[j]) by {
            assert(is_dec_digit(s@[j + start]));
        }
        assert(all_dec_digits(spec_digits(s@)));
    }
    Ok(acc as u16)
}

/// The `u32` denoted by a decimal string with an optional leading `+`,
/// or `None` where the string is empty, has a stray character, or
/// overflows.
pub open spec fn spec_parse_u32(s: Seq<char>) -> Option<u32> {
    if spec_digits(s).len() > 0 && all_dec_digits(spec_digits(s)) && dec_value(spec_digits(s))
        <= u32::MAX {
        Some(dec_value(spec_digits(s)) as u32)
    } else {
        None
    }
}

/// Parses a decimal `u32` with an optional leading `+`, as the standard
/// integer parser does.
pub fn parse_u32(s: &str) -> (r: Result<u32, IntParseError>)
    ensures
        match r {
            Ok(v) => spec_parse_u32(s@) == Some(v),
            Err(_) => spec_parse_u32(s@) is None,
        },
{
    let n = s.unicode_len();
    let mut start: usize = 0;
    if n > 0 && s.get_char(0) == '+' {
        start = 1;
    }
    let ghost digits: Seq<char> = spec_digits(s@);
    proof {
        assert(digits =~= s@.skip(start as int));
    }
    if n == start {
        return Err(IntParseError::Empty);
    }
    let mut acc: u64 = 0;
    let mut i: usize = start;
    while i < n
        invariant
            start <= i <= n,
            n == s@.len(),
            digits == spec_digits(s@),
            digits =~= s@.skip(start as int),
            forall|j: int| start <= j < i ==> is_dec_digit(s@[j]),
            acc == dec_value(digits.take(i - start)),
            acc <= u32::MAX,
        decreases n - i,
    {
        let c = s.get_char(i);
        let v = c as u32;
        if !(48 <= v && v <= 57) {
            proof {
                assert(!is_dec_digit(digits[i - start]));
                assert(!all_dec_digits(spec_digits(s@)));
            }
            return Err(IntParseError::InvalidDigit);
        }
        proof {
            assert(digits.take(i + 1 - start).drop_last() =~= digits.take(i - start));
            assert(digits.take(i + 1 - start).last() == s@[i as int]);
        }
        acc = acc * 10 + ((v - 48) as u64);
        proof {
            assert(acc == dec_value(digits.take(i + 1 - start)));
        }
        if acc > 0xFFFF_FFFF {
            proof {
                if all_dec_digits(digits) {
                    lemma_dec_value_mono(digits, i + 1 - start);
                }
            }
            return Err(IntParseError::Overflow);
        }
        i = i + 1;
    }
    proof {
        assert(digits.take(n - start) =~= digits);
        assert forall|j: int| 0 <= j < digits.len() implies is_dec_digit(#[trigger] digits[j]) by {
            assert(is_dec_digit(s@[j + start]));
        }
        assert(all_dec_digits(spec_digits(s@)));
    }
    Ok(acc as u32)
}

/// Whether two strings hold the same characters.
pub fn str_eq(a: &str, b: &str) -> (r: bool)
    ensures
        r <==> a@ =~= b@,
{
    let na = a.unicode_len();
    let nb = b.unicode_len();
    if na != nb {
        return false;
    }
    let mut i: usize = 0;
    while i < na
        invariant
            i <= na,
            na == a@.len(),
            na == b@.len(),
            forall|j: int| 0 <= j < i ==> a@[j] == b@[j],
        decreases na - i,
    {
        if a.get_char(i) != b.get_char(i) {
            return false;
        }
        i = i + 1;
    }
    true
}

// ---------------------------------------------------------------- node outpoint

/// A pointer to one output of one contract node: the node id, the
/// owned-right type, and the output number within that type.
#[derive(Clone, Copy, PartialEq, Eq, Debug, Hash)]
pub struct NodeOutpoint {
    pub node_id: NodeId,
    pub ty: u16,
    pub no: u16,
}

impl NodeOutpoint {
    /// The outpoint with the given coordinates.
    pub fn new(node_id: NodeId, ty: u16, no: u16) -> (r: NodeOutpoint)
        ensures
            r == (NodeOutpoint { node_id, ty, no }),
    {
        NodeOutpoint { node_id, ty, no }
    }
}

/// Why a node-outpoint string failed to parse.
#[derive(Clone, PartialEq, Eq, Debug)]
pub enum OutpointParseError {
    /// The node-id part is not 64 hexadecimal digits.
    InvalidNodeId(HexError),
    /// The owned-right-type part is not a decimal `u16`.
    InvalidType(IntParseError),
    /// The output-number part is not a decimal `u16`.
    InvalidOutputNo(IntParseError),
    /// The string does not hold exactly two `/` separators; carries the
    /// offending input.
    WrongFormat(String),
}

/// The first position of `c` in `s` at or after `from`, or `s.len()`.
pub open spec fn find_char(s: Seq<char>, c: char, from: int) -> int
    decreases s.len() - from,
{
    if from < 0 {
        -1
    } else if from >= s.len() {
        s.len() as int
    } else if s[from] == c {
        from
    } else {
        find_char(s, c, from + 1)
    }
}

/// Scans for `c` in `s` from position `from`.
fn find_char_from(s: &str, c: char, from: usize, n: usize) -> (r: usize)
    requires
        n == s@.len(),
        from <= n,
    ensures
        r == find_char(s@, c, from as int),
        from <= r <= n,
        r < n ==> s@[r as int] == c,
{
    let mut i = from;
    while i < n
        invariant
            from <= i <= n,
            n == s@.len(),
            find_char(s@, c, from as int) == find_char(s@, c, i as int),
        decreases n - i,
    {
        if s.get_char(i) == c {
            return i;
        }
        i = i + 1;
    }
    i
}

/// Where the two separators of a well-formed outpoint string stand: the
/// string splits as `id "/" ty "/" no` with no further `/` anywhere.
pub open spec fn outpoint_split(s: Seq<char>) -> (int, int) {
    let i1 = find_char(s, '/', 0);
    let i2 = find_char(s, '/', i1 + 1);
    (i1, i2)
}

/// Whether `s` holds exactly two `/` separators.
pub open spec fn outpoint_two_slashes(s: Seq<char>) -> bool {
    let (i1, i2) = outpoint_split(s);
    i2 < s.len() && find_char(s, '/', i2 + 1) == s.len()
}

impl NodeOutpoint {
    /// Parses `"{node_id}/{ty}/{no}"`: exactly two `/` separators, a
    /// 64-digit hex node id, and two decimal `u16` fields.
    pub fn from_str(s: &str) -> (r: Result<NodeOutpoint, OutpointParseError>)
        ensures
            ({
                let (i1, i2) = outpoint_split(s@);
                if !outpoint_two_slashes(s@) {
                    r matches Err(OutpointParseError::WrongFormat(t)) && t@ == s@
                } else {
                    let id_part = s@.take(i1);
                    let ty_part = s@.subrange(i1 + 1, i2);
                    let no_part = s@.skip(i2 + 1);
                    match r {
                        Ok(o) => spec_parse_hex32(id_part) == Some(o.node_id.0@)
                            && spec_parse_u16(ty_part) == Some(o.ty) && spec_parse_u16(no_part)
                            == Some(o.no),
                        Err(OutpointParseError::InvalidNodeId(_)) => spec_parse_hex32(id_part)
                            is None,
                        Err(OutpointParseError::InvalidType(_)) => spec_parse_hex32(id_part)
                            is Some && spec_parse_u16(ty_part) is None,
                        Err(OutpointParseError::InvalidOutputNo(_)) => spec_parse_hex32(id_part)
                            is Some && spec_parse_u16(ty_part) is Some && spec_parse_u16(no_part)
                            is None,
                        Err(OutpointParseError::WrongFormat(_)) => false,
                    }
                }
            }),
    {
            let n = s.unicode_len();
        let i1 = find_char_from(s, '/', 0, n);
        if i1 == n {
            return Err(OutpointParseError::WrongFormat(s.to_owned()));
        }
        let i2 = find_char_from(s, '/', i1 + 1, n);
        if i2 == n {
            return Err(OutpointParseError::WrongFormat(s.to_owned()));
        }
        let i3 = find_char_from(s, '/', i2 + 1, n);
        if i3 < n {
            return Err(OutpointParseError::WrongFormat(s.to_owned()));
        }
        let id_part = s.substring_char(0, i1);
        let ty_part = s.substring_char(i1 + 1, i2);
        let no_part = s.substring_char(i2 + 1, n);
        let node_id = match NodeId::from_str(id_part) {
            Ok(id) => id,
            Err(e) => {
                return Err(OutpointParseError::InvalidNodeId(e));
            },
        };
        let ty = match parse_u16(ty_part) {
            Ok(v) => v,
            Err(e) => {
                return Err(OutpointParseError::InvalidType(e));
            },
        };
        let no = match parse_u16(no_part) {
            Ok(v) => v,
            Err(e) => {
                return Err(OutpointParseError::InvalidOutputNo(e));
            },
        };
        Ok(NodeOutpoint { node_id, ty, no })
    }
}

} // verus!
