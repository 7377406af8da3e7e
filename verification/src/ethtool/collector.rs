//! The three-step ethtool protocol: how many statistics, their names, their
//! values.

use vstd::prelude::*;
use vstd::bytes::lemma_auto_spec_u32_to_from_le_bytes;
use vstd::bytes::spec_u32_from_le_bytes;
use vstd::bytes::spec_u32_to_le_bytes;
use vstd::bytes::spec_u64_from_le_bytes;
use vstd::bytes::u32_from_le_bytes;
use vstd::bytes::u32_to_le_bytes;
use vstd::bytes::u64_from_le_bytes;
use vstd::slice::slice_subrange;
use vstd::utf8::decode_utf8;
use vstd::utf8::encode_utf8;
use vstd::utf8::valid_utf8;
use crate::ethtool::errors::Error;
use crate::ethtool::errors::outcome_view;
use crate::ethtool::errors::ParseFailure;

verus! {

/// Bytes of one name slot in the answer to the names query.
pub const ETH_GSTRING_LEN: usize = 32;

/// Bytes of one value in the answer to the values query.
pub const VALUE_LEN: usize = 8;

/// `core::str::from_utf8`: the bytes as text, if and only if they are valid
/// UTF-8, and then the text that they encode.
#[verifier::external_body]
fn text_of(bytes: &[u8]) -> (r: Option<&str>)
    ensures
        r is Some <==> valid_utf8(bytes@),
        r matches Some(s) ==> s@ == decode_utf8(bytes@),
{
    core::str::from_utf8(bytes).ok()
}

/// Name slot `i` of the buffer: 32 bytes.
pub open spec fn name_slot(data: Seq<u8>, i: int) -> Seq<u8> {
    data.subrange(32 * i, 32 * i + 32)
}

/// How many bytes stand before the first NUL of `s`; the length of `s` if it
/// holds none.
pub open spec fn nul_offset(s: Seq<u8>) -> int
    decreases s.len(),
{
    if s.len() == 0 || s[0] == 0 {
        0
    } else {
        1 + nul_offset(s.drop_first())
    }
}

/// The bytes of name `i`: its slot up to the first NUL.
pub open spec fn name_bytes(data: Seq<u8>, i: int) -> Seq<u8> {
    name_slot(data, i).take(nul_offset(name_slot(data, i)))
}

/// What is wrong with name slot `i`, if anything: it must lie inside the
/// buffer, hold a NUL, and hold UTF-8 before it.
pub open spec fn name_failure(data: Seq<u8>, i: int) -> Option<ParseFailure> {
    if 32 * i + 32 > data.len() {
        Some(ParseFailure::NameOutOfBounds { index: i as usize })
    } else if nul_offset(name_slot(data, i)) >= 32 {
        Some(ParseFailure::NameUnterminated { index: i as usize })
    } else if !valid_utf8(name_bytes(data, i)) {
        Some(ParseFailure::NameNotText { index: i as usize })
    } else {
        None
    }
}

/// `nul_offset` is the one position that holds a NUL after none, or the
/// length where there is none.
pub proof fn lemma_nul_offset(s: Seq<u8>, k: int)
    requires
        0 <= k <= s.len(),
        forall|j: int| 0 <= j < k ==> s[j] != 0,
        k < s.len() ==> s[k] == 0,
    ensures
        nul_offset(s) == k,
    decreases k,
{
    if k > 0 {
        let t = s.drop_first();
        assert forall|j: int| 0 <= j < k - 1 implies t[j] != 0 by {
            assert(t[j] == s[j + 1]);
        }
        lemma_nul_offset(t, k - 1);
    }
}

/// The position of the first NUL of `slot`, if it holds one.
fn find_nul(slot: &[u8]) -> (r: Option<usize>)
    ensures
        match r {
            Some(k) => k < slot@.len() && nul_offset(slot@) == k,
            None => nul_offset(slot@) == slot@.len(),
        },
{
    let mut k: usize = 0;
    while k < slot.len()
        invariant
            k <= slot@.len(),
            forall|j: int| 0 <= j < k ==> slot@[j] != 0,
        decreases slot@.len() - k,
    {
        if slot[k] == 0 {
            proof {
                lemma_nul_offset(slot@, k as int);
            }
            return Some(k);
        }
        k += 1;
    }
    proof {
        lemma_nul_offset(slot@, k as int);
    }
    None
}

/// Reads the name in slot `i` of the data area.
fn parse_name(data: &[u8], i: usize) -> (r: Result<String, ParseFailure>)
    ensures
        match r {
            Ok(name) => name_failure(data@, i as int) is None && name@ == decode_utf8(
                name_bytes(data@, i as int),
            ),
            Err(e) => name_failure(data@, i as int) == Some(e),
        },
{
    if i >= data.len() / ETH_GSTRING_LEN {
        return Err(ParseFailure::NameOutOfBounds { index: i });
    }
    assert(32 * i + 32 <= data@.len());
    let offset: usize = ETH_GSTRING_LEN * i;
    let slot = slice_subrange(data, offset, offset + ETH_GSTRING_LEN);
    assert(slot@ == name_slot(data@, i as int));
    match find_nul(slot) {
        None => Err(ParseFailure::NameUnterminated { index: i }),
        Some(end) => {
            let bytes = slice_subrange(slot, 0, end);
            assert(bytes@ == name_bytes(data@, i as int));
            match text_of(bytes) {
                None => Err(ParseFailure::NameNotText { index: i }),
                Some(name) => Ok(name.to_owned()),
            }
        },
    }
}

/// What is wrong with the first of the `length` name slots that is not in
/// order, if any is.
pub open spec fn names_failure(data: Seq<u8>, length: nat) -> Option<ParseFailure>
    decreases length,
{
    if length == 0 {
        None
    } else {
        match names_failure(data, (length - 1) as nat) {
            Some(failure) => Some(failure),
            None => name_failure(data, length - 1),
        }
    }
}

/// The `length` names of the data area, where every slot is in order.
pub open spec fn names_in(data: Seq<u8>, length: nat) -> Seq<Seq<char>> {
    Seq::new(length, |i: int| decode_utf8(name_bytes(data, i)))
}

/// `names_failure` is `None` exactly where each of the slots is in order,
/// and else speaks of the first that is not.
pub proof fn lemma_names_failure(data: Seq<u8>, length: nat)
    ensures
        names_failure(data, length) is None <==> forall|i: int|
            0 <= i < length ==> name_failure(data, i) is None,
        names_failure(data, length) is Some ==> exists|i: int|
            0 <= i < length && (forall|j: int| 0 <= j < i ==> name_failure(data, j) is None)
                && #[trigger] name_failure(data, i) == names_failure(data, length),
    decreases length,
{
    if length > 0 {
        lemma_names_failure(data, (length - 1) as nat);
        if names_failure(data, (length - 1) as nat) is None && name_failure(data, length - 1)
            is Some {
            assert(name_failure(data, length - 1) == names_failure(data, length));
        }
    }
}

/// Reads `length` names from the data area of the answer to the names query,
/// one from each 32-byte slot. It fails at the first slot that is not inside
/// the buffer, holds no NUL, or holds bytes before the NUL that are not text.
pub fn parse_names(data: &[u8], length: usize) -> (r: Result<Vec<String>, Error>)
    ensures
        r is Ok <==> forall|i: int| 0 <= i < length ==> name_failure(data@, i) is None,
        r matches Ok(names) ==> names.deep_view() == names_in(data@, length as nat)
            && names@.len() == length,
        r matches Err(e) ==> names_failure(data@, length as nat) == Some(e->ParseError_0)
            && e is ParseError,
{
    let mut names: Vec<String> = Vec::new();
    let mut i: usize = 0;
    while i < length
        invariant
            i <= length,
            names@.len() == i,
            names_failure(data@, i as nat) is None,
            forall|j: int|
                0 <= j < i ==> (#[trigger] names@[j])@ == decode_utf8(name_bytes(data@, j)),
        decreases length - i,
    {
        match parse_name(data, i) {
            Ok(name) => {
                names.push(name);
            },
            Err(e) => {
                proof {
                    assert(names_failure(data@, (i + 1) as nat) == Some(e));
                    lemma_names_failure(data@, (i + 1) as nat);
                    lemma_names_failure(data@, length as nat);
                    assert(name_failure(data@, i as int) is Some);
                    lemma_names_failure_stays(data@, (i + 1) as nat, length as nat);
                }
                return Err(Error::ParseError(e));
            },
        }
        i += 1;
    }
    proof {
        lemma_names_failure(data@, length as nat);
        assert(names.deep_view() =~= names_in(data@, length as nat));
    }
    Ok(names)
}

/// Once a slot is not in order, reading further slots changes nothing.
pub proof fn lemma_names_failure_stays(data: Seq<u8>, n: nat, length: nat)
    requires
        n <= length,
        names_failure(data, n) is Some,
    ensures
        names_failure(data, length) == names_failure(data, n),
    decreases length,
{
    if n < length {
        lemma_names_failure_stays(data, n, (length - 1) as nat);
    }
}

/// Value `i` of the buffer: eight bytes, little-endian.
pub open spec fn value_at(data: Seq<u8>, i: int) -> u64 {
    spec_u64_from_le_bytes(data.subrange(8 * i, 8 * i + 8))
}

/// Reads `length` values from the data area of the answer to the values
/// query. It fails at the first value that the buffer does not hold whole.
pub fn parse_values(data: &[u8], length: usize) -> (r: Result<Vec<u64>, Error>)
    ensures
        r is Ok <==> 8 * length <= data@.len(),
        r matches Ok(values) ==> values@.len() == length && forall|i: int|
            0 <= i < length ==> #[trigger] values@[i] == value_at(data@, i),
        r matches Err(e) ==> e == Error::ParseError(
            ParseFailure::ValueOutOfBounds { index: (data@.len() / 8) as usize },
        ),
{
    let whole: usize = data.len() / VALUE_LEN;
    let mut values: Vec<u64> = Vec::new();
    let mut i: usize = 0;
    while i < length
        invariant
            i <= length,
            i <= whole,
            whole == data@.len() / 8,
            data@.len() <= usize::MAX,
            values@.len() == i,
            forall|j: int| 0 <= j < i ==> #[trigger] values@[j] == value_at(data@, j),
        decreases length - i,
    {
        if i == whole {
            return Err(Error::ParseError(ParseFailure::ValueOutOfBounds { index: i }));
        }
        assert(8 * i + 8 <= data@.len());
        let offset: usize = VALUE_LEN * i;
        let slot = slice_subrange(data, offset, offset + VALUE_LEN);
        values.push(u64_from_le_bytes(slot));
        i += 1;
    }
    Ok(values)
}

/// Longest interface name, in bytes.
pub const IFNAME_MAX_SIZE: usize = 16;

/// Most statistics that one read can take.
pub const MAX_GSTRINGS: usize = 8192;

/// The command that asks how many strings a string set holds.
pub const ETHTOOL_GSSET_INFO: u32 = 0x37;

/// The command that asks for the strings of a string set.
pub const ETHTOOL_GSTRINGS: u32 = 0x1b;

/// The command that asks for the statistics' values.
pub const ETHTOOL_GSTATS: u32 = 0x1d;

/// The string set that holds the statistics' names.
pub const ETH_SS_STATS: u32 = 0x1;

/// Bytes before the data area in the buffer of the names query.
pub const GSTRINGS_HEADER_LEN: usize = 12;

/// Bytes before the data area in the buffer of the values query.
pub const GSTATS_HEADER_LEN: usize = 8;

/// Where the count stands in the buffer of the size query.
pub const SSET_COUNT_OFFSET: usize = 16;

/// What is handed to the kernel with one ethtool ioctl: the interface's name
/// in a field of 16 bytes, and the buffer that the kernel reads the query from
/// and writes its answer into.
#[derive(Clone, Debug, PartialEq, Eq)]
pub struct IfRequest {
    pub if_name: [u8; 16],
    pub data: Vec<u8>,
}

/// What came of one ioctl: the buffer as the kernel left it, or the errno.
pub type Reply = Result<Vec<u8>, i32>;

/// `name` filled up with NUL bytes to the 16 bytes of the name field.
pub open spec fn padded_name(name: Seq<u8>) -> Seq<u8> {
    Seq::new(16, |i: int| if i < name.len() { name[i] } else { 0u8 })
}

/// `n` NUL bytes.
pub open spec fn zeros(n: nat) -> Seq<u8> {
    Seq::new(n, |i: int| 0u8)
}

/// The buffer of the size query: the command, a reserved word, the mask that
/// selects the statistics' string set, and room for the count, each
/// little-endian.
pub open spec fn sset_info_query() -> Seq<u8> {
    spec_u32_to_le_bytes(ETHTOOL_GSSET_INFO) + spec_u32_to_le_bytes(1) + spec_u32_to_le_bytes(
        2,
    ) + zeros(12)
}

/// The buffer of the names query for `length` names: the command, the string
/// set, the count, and a data area of 8192 slots of 32 bytes.
pub open spec fn gstrings_query(length: u32) -> Seq<u8> {
    spec_u32_to_le_bytes(ETHTOOL_GSTRINGS) + spec_u32_to_le_bytes(ETH_SS_STATS)
        + spec_u32_to_le_bytes(length) + zeros(262144)
}

/// The buffer of the values query for `length` values: the command, the
/// count, and a data area of 8192 values of 8 bytes.
pub open spec fn gstats_query(length: u32) -> Seq<u8> {
    spec_u32_to_le_bytes(ETHTOOL_GSTATS) + spec_u32_to_le_bytes(length) + zeros(65536)
}

/// Copies an interface name into the name field of a request.
pub fn name_field(if_name: &str) -> (field: [u8; 16])
    requires
        encode_utf8(if_name@).len() <= 16,
    ensures
        field@ == padded_name(encode_utf8(if_name@)),
{
    let bytes = if_name.as_bytes();
    let mut field: [u8; 16] = [0u8; 16];
    let mut i: usize = 0;
    while i < bytes.len()
        invariant
            i <= bytes@.len() <= 16,
            forall|j: int| 0 <= j < i ==> field@[j] == bytes@[j],
            forall|j: int| i <= j < 16 ==> field@[j] == 0,
        decreases bytes@.len() - i,
    {
        field[i] = bytes[i];
        i += 1;
    }
    assert(field@ =~= padded_name(bytes@));
    field
}

/// Appends `n` NUL bytes to `buffer`.
fn pad(buffer: &mut Vec<u8>, n: usize)
    requires
        old(buffer)@.len() + n <= usize::MAX,
    ensures
        final(buffer)@ == old(buffer)@ + zeros(n as nat),
{
    let ghost before = buffer@;
    let mut i: usize = 0;
    while i < n
        invariant
            i <= n,
            before.len() + n <= usize::MAX,
            buffer@ == before + zeros(i as nat),
        decreases n - i,
    {
        buffer.push(0u8);
        i += 1;
        assert(buffer@ =~= before + zeros(i as nat));
    }
}

/// Appends `word` to `buffer`, little-endian.
fn put_word(buffer: &mut Vec<u8>, word: u32)
    ensures
        final(buffer)@ == old(buffer)@ + spec_u32_to_le_bytes(word),
{
    let mut bytes = u32_to_le_bytes(word);
    buffer.append(&mut bytes);
}

/// Builds the buffer of the size query.
pub fn sset_info_request() -> (buffer: Vec<u8>)
    ensures
        buffer@ == sset_info_query(),
{
    let mut buffer: Vec<u8> = Vec::new();
    put_word(&mut buffer, ETHTOOL_GSSET_INFO);
    put_word(&mut buffer, 1);
    put_word(&mut buffer, 1 << ETH_SS_STATS);
    proof {
        lemma_auto_spec_u32_to_from_le_bytes();
        assert(1u32 << 1u32 == 2u32) by (bit_vector);
    }
    pad(&mut buffer, 12);
    assert(buffer@ =~= sset_info_query());
    buffer
}

/// Builds the buffer of the names query for `length` names.
pub fn gstrings_request(length: u32) -> (buffer: Vec<u8>)
    ensures
        buffer@ == gstrings_query(length),
{
    let mut buffer: Vec<u8> = Vec::new();
    put_word(&mut buffer, ETHTOOL_GSTRINGS);
    put_word(&mut buffer, ETH_SS_STATS);
    put_word(&mut buffer, length);
    proof {
        lemma_auto_spec_u32_to_from_le_bytes();
    }
    pad(&mut buffer, MAX_GSTRINGS * ETH_GSTRING_LEN);
    assert(buffer@ =~= gstrings_query(length));
    buffer
}

/// Builds the buffer of the values query for `length` values.
pub fn gstats_request(length: u32) -> (buffer: Vec<u8>)
    ensures
        buffer@ == gstats_query(length),
{
    let mut buffer: Vec<u8> = Vec::new();
    put_word(&mut buffer, ETHTOOL_GSTATS);
    put_word(&mut buffer, length);
    proof {
        lemma_auto_spec_u32_to_from_le_bytes();
    }
    pad(&mut buffer, MAX_GSTRINGS * VALUE_LEN);
    assert(buffer@ =~= gstats_query(length));
    buffer
}

/// A reply as plain values.
pub open spec fn reply_view(reply: Reply) -> Result<Seq<u8>, i32> {
    match reply {
        Ok(buffer) => Ok(buffer@),
        Err(errno) => Err(errno),
    }
}

/// What follows the first `n` bytes of `buffer`; nothing where it is shorter.
pub open spec fn data_area(buffer: Seq<u8>, n: int) -> Seq<u8> {
    if n <= buffer.len() {
        buffer.skip(n)
    } else {
        Seq::empty()
    }
}

/// The number of statistics that the answer to the size query gives: the
/// word at byte 16, little-endian.
pub open spec fn count_of(reply: Result<Seq<u8>, i32>) -> Result<usize, Error> {
    match reply {
        Err(errno) => Err(Error::GSSetInfoReadError(errno)),
        Ok(buffer) => if buffer.len() < 20 {
            Err(Error::ParseError(ParseFailure::CountOutOfBounds))
        } else {
            Ok(spec_u32_from_le_bytes(buffer.subrange(16, 20)) as usize)
        },
    }
}

/// The names that the answer to the names query gives for `length` names.
pub open spec fn names_of(reply: Result<Seq<u8>, i32>, length: nat) -> Result<
    Seq<Seq<char>>,
    Error,
> {
    match reply {
        Err(errno) => Err(Error::GStringsReadError(errno)),
        Ok(buffer) => match names_failure(data_area(buffer, 12), length) {
            Some(failure) => Err(Error::ParseError(failure)),
            None => Ok(names_in(data_area(buffer, 12), length)),
        },
    }
}

/// The values that the answer to the values query gives for `length` values.
pub open spec fn values_of(reply: Result<Seq<u8>, i32>, length: nat) -> Result<Seq<u64>, Error> {
    match reply {
        Err(errno) => Err(Error::GStatsReadError(errno)),
        Ok(buffer) => {
            let data = data_area(buffer, 8);
            if 8 * length <= data.len() {
                Ok(Seq::new(length, |i: int| value_at(data, i)))
            } else {
                Err(
                    Error::ParseError(
                        ParseFailure::ValueOutOfBounds { index: (data.len() / 8) as usize },
                    ),
                )
            }
        },
    }
}

/// Each name with the value at its position.
pub open spec fn paired(names: Seq<Seq<char>>, values: Seq<u64>) -> Seq<(Seq<char>, u64)>
    recommends
        names.len() == values.len(),
{
    Seq::new(names.len(), |i: int| (names[i], values[i]))
}

/// The part of `buffer` after its first `n` bytes.
fn skip_header(buffer: &Vec<u8>, n: usize) -> (data: &[u8])
    ensures
        data@ == data_area(buffer@, n as int),
{
    if n <= buffer.len() {
        slice_subrange(buffer.as_slice(), n, buffer.len())
    } else {
        slice_subrange(buffer.as_slice(), 0, 0)
    }
}

/// Reads the number of statistics from what came of the size query.
pub fn stat_count(reply: &Reply) -> (r: Result<usize, Error>)
    ensures
        r == count_of(reply_view(*reply)),
{
    match reply {
        Err(errno) => Err(Error::GSSetInfoReadError(*errno)),
        Ok(buffer) => {
            if buffer.len() < SSET_COUNT_OFFSET + 4 {
                Err(Error::ParseError(ParseFailure::CountOutOfBounds))
            } else {
                let word = slice_subrange(
                    buffer.as_slice(),
                    SSET_COUNT_OFFSET,
                    SSET_COUNT_OFFSET + 4,
                );
                Ok(u32_from_le_bytes(word) as usize)
            }
        },
    }
}

/// Reads `length` names from what came of the names query.
pub fn stat_names(reply: &Reply, length: usize) -> (r: Result<Vec<String>, Error>)
    ensures
        outcome_view(r) == names_of(reply_view(*reply), length as nat),
        r matches Ok(names) ==> names@.len() == length,
{
    match reply {
        Err(errno) => Err(Error::GStringsReadError(*errno)),
        Ok(buffer) => {
            let r = parse_names(skip_header(buffer, GSTRINGS_HEADER_LEN), length);
            proof {
                lemma_names_failure(data_area(buffer@, 12), length as nat);
            }
            r
        },
    }
}

/// Reads `length` values from what came of the values query.
pub fn stat_values(reply: &Reply, length: usize) -> (r: Result<Vec<u64>, Error>)
    ensures
        outcome_view(r) == values_of(reply_view(*reply), length as nat),
        r matches Ok(values) ==> values@.len() == length,
{
    match reply {
        Err(errno) => Err(Error::GStatsReadError(*errno)),
        Ok(buffer) => {
            let r = parse_values(skip_header(buffer, GSTATS_HEADER_LEN), length);
            proof {
                if r is Ok {
                    assert(r->Ok_0.deep_view() =~= Seq::new(
                        length as nat,
                        |i: int| value_at(data_area(buffer@, 8), i),
                    ));
                }
            }
            r
        },
    }
}

/// Pairs each name with the value at its position.
pub fn pair_stats(names: Vec<String>, values: Vec<u64>) -> (pairs: Vec<(String, u64)>)
    requires
        names@.len() == values@.len(),
    ensures
        pairs.deep_view() == paired(names.deep_view(), values@),
{
    let ghost wanted = paired(names.deep_view(), values@);
    let ghost given = names@;
    let mut pairs: Vec<(String, u64)> = Vec::new();
    let n: usize = values.len();
    let mut i: usize = 0;
    for name in it: names
        invariant
            it.seq() == given,
            given.len() == values@.len(),
            given.len() == n,
            i == it.index(),
            wanted.len() == given.len(),
            forall|j: int| 0 <= j < given.len() ==> wanted[j] == (given[j]@, values@[j]),
            pairs.deep_view() == wanted.take(i as int),
    {
        assert(name == given[i as int]);
        let ghost before = pairs.deep_view();
        pairs.push((name, values[i]));
        assert(pairs.deep_view() =~= before.push((name@, values@[i as int])));
        i += 1;
        assert(pairs.deep_view() =~= wanted.take(i as int));
    }
    assert(wanted.take(i as int) =~= wanted);
    pairs
}

/// Whether `reply` is something that the transport `ioctl` may give when it
/// is asked `query` of the interface `if_name`.
pub open spec fn answers<T: Fn(IfRequest) -> Reply>(
    ioctl: T,
    if_name: Seq<char>,
    query: Seq<u8>,
    reply: Result<Seq<u8>, i32>,
) -> bool {
    exists|request: IfRequest, given: Reply|
        #![trigger call_ensures(ioctl, (request,), given)]
        request.if_name@ == padded_name(encode_utf8(if_name)) && request.data@ == query
            && call_ensures(ioctl, (request,), given) && reply_view(given) == reply
}

/// What the names step comes to for a count of `length`: a count above the
/// capacity of the buffer is refused before the kernel is asked, as the name
/// past the last slot; else the kernel's answer decides.
pub open spec fn names_step<T: Fn(IfRequest) -> Reply>(
    ioctl: T,
    if_name: Seq<char>,
    length: usize,
    r: Result<Seq<Seq<char>>, Error>,
) -> bool {
    if length > MAX_GSTRINGS {
        r == Err::<Seq<Seq<char>>, Error>(
            Error::ParseError(ParseFailure::NameOutOfBounds { index: MAX_GSTRINGS }),
        )
    } else {
        exists|reply: Result<Seq<u8>, i32>|
            #![trigger names_of(reply, length as nat)]
            answers(ioctl, if_name, gstrings_query(length as u32), reply) && r == names_of(
                reply,
                length as nat,
            )
    }
}

/// What the size step comes to: the kernel's answer to the size query
/// decides.
pub open spec fn size_step<T: Fn(IfRequest) -> Reply>(
    ioctl: T,
    if_name: Seq<char>,
    r: Result<usize, Error>,
) -> bool {
    exists|reply: Result<Seq<u8>, i32>|
        #![trigger count_of(reply)]
        answers(ioctl, if_name, sset_info_query(), reply) && r == count_of(reply)
}

/// What the values step comes to for `length` names: more values than the
/// buffer has room for are refused before the kernel is asked, as the value
/// past the last; else the kernel's answer decides.
pub open spec fn values_step<T: Fn(IfRequest) -> Reply>(
    ioctl: T,
    if_name: Seq<char>,
    length: nat,
    r: Result<Seq<u64>, Error>,
) -> bool {
    if length > MAX_GSTRINGS {
        r == Err::<Seq<u64>, Error>(
            Error::ParseError(ParseFailure::ValueOutOfBounds { index: MAX_GSTRINGS }),
        )
    } else {
        exists|reply: Result<Seq<u8>, i32>|
            #![trigger values_of(reply, length)]
            answers(ioctl, if_name, gstats_query(length as u32), reply) && r == values_of(
                reply,
                length,
            )
    }
}

/// Whether the three steps came to `count`, `names` and `values` and the
/// read as a whole to `r`: a step is taken only if those before it
/// succeeded, the first that fails gives the error, and where none fails
/// each name stands with the value at its position.
pub open spec fn stats_chain<T: Fn(IfRequest) -> Reply>(
    ioctl: T,
    if_name: Seq<char>,
    count: Result<usize, Error>,
    names: Result<Seq<Seq<char>>, Error>,
    values: Result<Seq<u64>, Error>,
    r: Result<Seq<(Seq<char>, u64)>, Error>,
) -> bool {
    &&& size_step(ioctl, if_name, count)
    &&& match count {
        Err(e) => r == Err::<Seq<(Seq<char>, u64)>, Error>(e),
        Ok(length) => {
            &&& names_step(ioctl, if_name, length, names)
            &&& match names {
                Err(e) => r == Err::<Seq<(Seq<char>, u64)>, Error>(e),
                Ok(found) => {
                    &&& values_step(ioctl, if_name, found.len(), values)
                    &&& match values {
                        Err(e) => r == Err::<Seq<(Seq<char>, u64)>, Error>(e),
                        Ok(numbers) => r == Ok::<Seq<(Seq<char>, u64)>, Error>(
                            paired(found, numbers),
                        ),
                    }
                },
            }
        },
    }
}

/// Whether `r` is what a statistics read of `if_name` over the transport
/// `ioctl` may come to: the size query, then the names query for the count
/// that it gave, then the values query for as many values as there are
/// names.
pub open spec fn stats_outcome<T: Fn(IfRequest) -> Reply>(
    ioctl: T,
    if_name: Seq<char>,
    r: Result<Seq<(Seq<char>, u64)>, Error>,
) -> bool {
    exists|
        count: Result<usize, Error>,
        names: Result<Seq<Seq<char>>, Error>,
        values: Result<Seq<u64>, Error>,
    | stats_chain(ioctl, if_name, count, names, values, r)
}

/// Where each of the `length` name slots of the names answer holds text
/// and a NUL after it, and the values answer holds `length` values, the two
/// answers give exactly `length` pairs, each name with the value at its
/// position, in the order of the buffers.
pub proof fn lemma_valid_answers_pair_in_order(names: Seq<u8>, values: Seq<u8>, length: nat)
    requires
        forall|i: int| 0 <= i < length ==> name_failure(data_area(names, 12), i) is None,
        8 * length <= data_area(values, 8).len(),
    ensures
        names_of(Ok(names), length) is Ok,
        values_of(Ok(values), length) is Ok,
        paired(names_of(Ok(names), length)->Ok_0, values_of(Ok(values), length)->Ok_0).len()
            == length,
        forall|i: int|
            0 <= i < length ==> #[trigger] paired(
                names_of(Ok(names), length)->Ok_0,
                values_of(Ok(values), length)->Ok_0,
            )[i] == (
                decode_utf8(name_bytes(data_area(names, 12), i)),
                value_at(data_area(values, 8), i),
            ),
{
    lemma_names_failure(data_area(names, 12), length);
}

/// A read whose three steps succeed gives as many pairs as the size step
/// counted, and pair `i` holds name `i` and value `i`.
pub proof fn lemma_stats_in_kernel_order<T: Fn(IfRequest) -> Reply>(
    ioctl: T,
    if_name: Seq<char>,
    count: Result<usize, Error>,
    names: Result<Seq<Seq<char>>, Error>,
    values: Result<Seq<u64>, Error>,
    r: Result<Seq<(Seq<char>, u64)>, Error>,
)
    requires
        stats_chain(ioctl, if_name, count, names, values, r),
        count is Ok,
        names is Ok,
        values is Ok,
    ensures
        r is Ok,
        r->Ok_0.len() == count->Ok_0,
        names->Ok_0.len() == count->Ok_0,
        values->Ok_0.len() == count->Ok_0,
        forall|i: int|
            0 <= i < count->Ok_0 ==> #[trigger] r->Ok_0[i] == (names->Ok_0[i], values->Ok_0[i]),
{
    let length = count->Ok_0;
    assert(names_step(ioctl, if_name, length, names));
    assert(length <= MAX_GSTRINGS);
    let reply = choose|reply: Result<Seq<u8>, i32>|
        #![trigger names_of(reply, length as nat)]
        answers(ioctl, if_name, gstrings_query(length as u32), reply) && names == names_of(
            reply,
            length as nat,
        );
    assert(names->Ok_0.len() == length);
    let found = names->Ok_0;
    assert(values_step(ioctl, if_name, found.len(), values));
    let answer = choose|answer: Result<Seq<u8>, i32>|
        #![trigger values_of(answer, found.len())]
        answers(ioctl, if_name, gstats_query(found.len() as u32), answer) && values == values_of(
            answer,
            found.len(),
        );
    assert(values->Ok_0.len() == length);
}

/// The statistics collector of one interface. It holds the interface's name
/// and leaves the ioctl itself to a transport: a function that hands a
/// request to the kernel and gives back the buffer as the kernel left it, or
/// the errno.
pub struct Ethtool {
    if_name: String,
}

impl Ethtool {
    /// The name fits the name field of a request.
    #[verifier::type_invariant]
    pub closed spec fn fits(&self) -> bool {
        encode_utf8(self.if_name@).len() <= 16
    }

    /// The interface's name.
    pub closed spec fn name(&self) -> Seq<char> {
        self.if_name@
    }

    /// A collector for the interface `if_name`, whose name is no longer than
    /// the kernel allows.
    pub fn init(if_name: &str) -> (r: Self)
        requires
            encode_utf8(if_name@).len() <= IFNAME_MAX_SIZE,
        ensures
            r.name() == if_name@,
    {
        Ethtool { if_name: if_name.to_owned() }
    }

    /// The request that carries `data` to the kernel for this interface.
    pub fn request(&self, data: Vec<u8>) -> (r: IfRequest)
        ensures
            r.if_name@ == padded_name(encode_utf8(self.name())),
            r.data == data,
    {
        proof {
            use_type_invariant(self);
        }
        IfRequest { if_name: name_field(self.if_name.as_str()), data }
    }

    /// Asks how many statistics the interface reports.
    pub fn gsset_info<T: Fn(IfRequest) -> Reply>(&self, ioctl: &T) -> (r: Result<usize, Error>)
        requires
            forall|request: IfRequest| call_requires(*ioctl, (request,)),
        ensures
            size_step(*ioctl, self.name(), r),
    {
        let request = self.request(sset_info_request());
        let reply = ioctl(request);
        proof {
            assert(call_ensures(*ioctl, (request,), reply));
            assert(answers(*ioctl, self.name(), sset_info_query(), reply_view(reply)));
        }
        stat_count(&reply)
    }

    /// Asks for the names of the `length` statistics.
    pub fn gstrings<T: Fn(IfRequest) -> Reply>(&self, length: usize, ioctl: &T) -> (r: Result<
        Vec<String>,
        Error,
    >)
        requires
            forall|request: IfRequest| call_requires(*ioctl, (request,)),
        ensures
            names_step(*ioctl, self.name(), length, outcome_view(r)),
            r matches Ok(names) ==> names@.len() == length,
    {
        if length > MAX_GSTRINGS {
            return Err(Error::ParseError(ParseFailure::NameOutOfBounds { index: MAX_GSTRINGS }));
        }
        let request = self.request(gstrings_request(length as u32));
        let reply = ioctl(request);
        proof {
            assert(call_ensures(*ioctl, (request,), reply));
            assert(answers(
                *ioctl,
                self.name(),
                gstrings_query(length as u32),
                reply_view(reply),
            ));
        }
        stat_names(&reply, length)
    }

    /// Asks for the values of the statistics named `features`.
    pub fn gstats<T: Fn(IfRequest) -> Reply>(&self, features: &Vec<String>, ioctl: &T) -> (r:
        Result<Vec<u64>, Error>)
        requires
            forall|request: IfRequest| call_requires(*ioctl, (request,)),
        ensures
            values_step(*ioctl, self.name(), features@.len(), outcome_view(r)),
            r matches Ok(values) ==> values@.len() == features@.len(),
    {
        let length = features.len();
        if length > MAX_GSTRINGS {
            return Err(Error::ParseError(ParseFailure::ValueOutOfBounds { index: MAX_GSTRINGS }));
        }
        let request = self.request(gstats_request(length as u32));
        let reply = ioctl(request);
        proof {
            assert(call_ensures(*ioctl, (request,), reply));
            assert(answers(
                *ioctl,
                self.name(),
                gstats_query(length as u32),
                reply_view(reply),
            ));
        }
        stat_values(&reply, length)
    }

    /// Reads the interface's statistics, as `ethtool -S` does: each name with
    /// its value, in the kernel's order.
    pub fn stats<T: Fn(IfRequest) -> Reply>(&self, ioctl: &T) -> (r: Result<
        Vec<(String, u64)>,
        Error,
    >)
        requires
            forall|request: IfRequest| call_requires(*ioctl, (request,)),
        ensures
            stats_outcome(*ioctl, self.name(), outcome_view(r)),
    {
        let ghost name = self.name();
        let ghost no_names = Err::<Seq<Seq<char>>, Error>(Error::GStringsReadError(0));
        let ghost no_values = Err::<Seq<u64>, Error>(Error::GStatsReadError(0));
        let count = self.gsset_info(ioctl);
        let length = match count {
            Ok(length) => length,
            Err(e) => {
                proof {
                    let r = Err::<Seq<(Seq<char>, u64)>, Error>(e);
                    assert(stats_chain(*ioctl, name, count, no_names, no_values, r));
                }
                return Err(e);
            },
        };
        let features = match self.gstrings(length, ioctl) {
            Ok(features) => features,
            Err(e) => {
                proof {
                    let r = Err::<Seq<(Seq<char>, u64)>, Error>(e);
                    let names = Err::<Seq<Seq<char>>, Error>(e);
                    assert(stats_chain(*ioctl, name, count, names, no_values, r));
                }
                return Err(e);
            },
        };
        let ghost names = Ok::<Seq<Seq<char>>, Error>(features.deep_view());
        let values = match self.gstats(&features, ioctl) {
            Ok(values) => values,
            Err(e) => {
                proof {
                    let r = Err::<Seq<(Seq<char>, u64)>, Error>(e);
                    let values = Err::<Seq<u64>, Error>(e);
                    assert(stats_chain(*ioctl, name, count, names, values, r));
                }
                return Err(e);
            },
        };
        let ghost numbers = Ok::<Seq<u64>, Error>(values@);
        let pairs = pair_stats(features, values);
        proof {
            assert(values.deep_view() =~= values@);
            let r = Ok::<Seq<(Seq<char>, u64)>, Error>(pairs.deep_view());
            assert(stats_chain(*ioctl, name, count, names, numbers, r));
        }
        Ok(pairs)
    }
}

} // verus!
