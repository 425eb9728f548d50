//! The dump decoder: from the bytes of a dump to the objects it records.
//!
//! A dump opens with a banner line that names its version. Each record after
//! it is a run of numeric tokens, every one closed by a space, then the text
//! fields at the lengths that the tokens declared, then (in version 4) the
//! payload as hexadecimal digits, then a terminator of two bytes.

use crate::numeric::{i32_of_text, is_float, is_float_text, parse_i32, parse_usize, usize_of_text};
use vstd::prelude::*;
use vstd::slice::{slice_subrange, slice_to_vec};

verus! {

/// ASCII space, which closes every numeric token.
pub const SPACE: u8 = 32;

/// The byte that stands for a line feed inside a text field.
pub const LINE_FEED_MARK: u8 = 0x7F;

/// The byte that stands for a carriage return before a line-feed mark.
pub const CARRIAGE_RETURN_MARK: u8 = 0x80;

/// ASCII line feed.
pub const LINE_FEED: u8 = 10;

/// ASCII carriage return.
pub const CARRIAGE_RETURN: u8 = 13;

/// The length of a banner line.
pub const BANNER_LEN: usize = 20;

/// Why a dump could not be decoded.
#[derive(Copy, Clone, Debug, PartialEq, Eq, Structural)]
pub enum DecodeError {
    /// The dump does not open with a banner of a known version.
    Format,
    /// A numeric token is missing or malformed, or a field is cut short; the
    /// number is the offset at which that token or field begins.
    Frame(usize),
    /// The payload holds a byte that is no hexadecimal digit; the number is
    /// the offset of that byte.
    Payload(usize),
}

/// One decoded record.
///
/// The six coordinates and angles are kept as the text of their tokens, each
/// of which is the text of a floating-point number.
#[derive(Clone, Debug, PartialEq, Eq)]
pub struct Object {
    pub id: i32,
    pub timestamp: i32,
    pub x: Vec<u8>,
    pub y: Vec<u8>,
    pub z: Vec<u8>,
    pub yaw: Vec<u8>,
    pub tilt: Vec<u8>,
    pub roll: Vec<u8>,
    /// The object-type code; zero in a version-3 dump, which has none.
    pub kind: i32,
    pub name: Vec<u8>,
    pub description: Vec<u8>,
    pub action: Vec<u8>,
    /// The decoded payload; empty in a version-3 dump, which has none.
    pub payload: Vec<u8>,
}

/// What an [`Object`] holds, as mathematical values.
pub struct ObjectView {
    pub id: i32,
    pub timestamp: i32,
    pub x: Seq<u8>,
    pub y: Seq<u8>,
    pub z: Seq<u8>,
    pub yaw: Seq<u8>,
    pub tilt: Seq<u8>,
    pub roll: Seq<u8>,
    pub kind: i32,
    pub name: Seq<u8>,
    pub description: Seq<u8>,
    pub action: Seq<u8>,
    pub payload: Seq<u8>,
}

impl View for Object {
    type V = ObjectView;

    open spec fn view(&self) -> ObjectView {
        ObjectView {
            id: self.id,
            timestamp: self.timestamp,
            x: self.x@,
            y: self.y@,
            z: self.z@,
            yaw: self.yaw@,
            tilt: self.tilt@,
            roll: self.roll@,
            kind: self.kind,
            name: self.name@,
            description: self.description@,
            action: self.action@,
            payload: self.payload@,
        }
    }
}

/// The banner line of a version: `propdump version 3` or `propdump version 4`,
/// closed by a carriage return and a line feed.
pub open spec fn banner(v4: bool) -> Seq<u8> {
    seq![
        112u8, 114u8, 111u8, 112u8, 100u8, 117u8, 109u8, 112u8, 32u8,
        118u8, 101u8, 114u8, 115u8, 105u8, 111u8, 110u8, 32u8,
        if v4 { 52u8 } else { 51u8 },
        13u8, 10u8,
    ]
}

/// Whether `data` opens with the banner of the version.
pub open spec fn has_banner(data: Seq<u8>, v4: bool) -> bool {
    data.len() >= BANNER_LEN && data.subrange(0, BANNER_LEN as int) == banner(v4)
}

/// The index of the first space at or after `from`; the length of `data`
/// where there is none.
pub open spec fn token_end(data: Seq<u8>, from: int) -> int
    decreases data.len() - from,
{
    if 0 <= from < data.len() && data[from] != SPACE {
        token_end(data, from + 1)
    } else {
        from
    }
}

/// The kinds of numeric token.
pub enum FieldKind {
    /// A 32-bit signed integer.
    Integer,
    /// A floating-point number.
    Float,
    /// The length of a field that follows the tokens.
    Length,
}

/// How many numeric tokens open a record.
pub open spec fn field_count(v4: bool) -> int {
    if v4 {
        13
    } else {
        11
    }
}

/// The kind of the token at index `i`: identifier and timestamp, then six
/// coordinates and angles, then (in version 4) the object type, then the lengths.
pub open spec fn field_kind(i: int, v4: bool) -> FieldKind {
    if i < 2 {
        FieldKind::Integer
    } else if i < 8 {
        FieldKind::Float
    } else if v4 && i == 8 {
        FieldKind::Integer
    } else {
        FieldKind::Length
    }
}

/// Whether `text` is a number of the kind.
pub open spec fn token_fits(kind: FieldKind, text: Seq<u8>) -> bool {
    match kind {
        FieldKind::Integer => i32_of_text(text) is Some,
        FieldKind::Float => is_float_text(text),
        FieldKind::Length => usize_of_text(text) is Some,
    }
}

/// Where the token at index `i` begins, in a record that begins at `pos`:
/// one past the space that closes the token before it.
pub open spec fn field_start(data: Seq<u8>, pos: int, i: nat) -> int
    decreases i,
{
    if i == 0 {
        pos
    } else {
        token_end(data, field_start(data, pos, (i - 1) as nat)) + 1
    }
}

/// The text of the token at index `i`, without the space that closes it.
pub open spec fn field_text(data: Seq<u8>, pos: int, i: nat) -> Seq<u8> {
    data.subrange(field_start(data, pos, i), token_end(data, field_start(data, pos, i)))
}

/// Whether the token at index `i` is there, closed by a space, and a number
/// of its kind.
pub open spec fn field_ok(data: Seq<u8>, pos: int, i: nat, v4: bool) -> bool {
    token_end(data, field_start(data, pos, i)) < data.len() && token_fits(
        field_kind(i as int, v4),
        field_text(data, pos, i),
    )
}

/// The index of the first token at or after `from` that is not as
/// [`field_ok`] asks; the count of tokens where all of them are.
pub open spec fn first_bad_field(data: Seq<u8>, pos: int, from: nat, v4: bool) -> nat
    decreases field_count(v4) - from,
{
    if from >= field_count(v4) {
        field_count(v4) as nat
    } else if !field_ok(data, pos, from, v4) {
        from
    } else {
        first_bad_field(data, pos, from + 1, v4)
    }
}

/// The index of the first space at or after `from`, or the length of `data`.
pub(crate) fn find_space(data: &[u8], from: usize) -> (end: usize)
    requires
        from <= data@.len(),
    ensures
        end == token_end(data@, from as int),
        from <= end <= data@.len(),
{
    let mut i: usize = from;
    while i < data.len() && data[i] != SPACE
        invariant
            from <= i <= data@.len(),
            token_end(data@, from as int) == token_end(data@, i as int),
        decreases data@.len() - i,
    {
        i = i + 1;
    }
    i
}

/// Which banner `data` opens with: `Some(true)` for version 4, `Some(false)`
/// for version 3, `None` for neither.
pub fn read_banner(data: &[u8]) -> (r: Option<bool>)
    ensures
        r == (if has_banner(data@, false) {
            Some(false)
        } else if has_banner(data@, true) {
            Some(true)
        } else {
            None
        }),
{
    if data.len() < BANNER_LEN {
        return None;
    }
    let v4: bool = data[17] == 52;
    let expected: [u8; 20] = [
        112, 114, 111, 112, 100, 117, 109, 112, 32, 118, 101, 114, 115, 105, 111, 110, 32,
        if v4 { 52 } else { 51 },
        13, 10,
    ];
    assert(expected@ =~= banner(v4));
    let ghost head = data@.subrange(0, BANNER_LEN as int);
    assert(head[17] == data@[17]);
    assert(banner(true)[17] == 52 && banner(false)[17] == 51);
    let mut i: usize = 0;
    while i < BANNER_LEN
        invariant
            0 <= i <= BANNER_LEN,
            BANNER_LEN <= data@.len(),
            head == data@.subrange(0, BANNER_LEN as int),
            expected@ == banner(v4),
            head[17] != banner(!v4)[17],
            forall|j: int| 0 <= j < i ==> head[j] == expected@[j],
        decreases BANNER_LEN - i,
    {
        if data[i] != expected[i] {
            assert(head[i as int] != banner(v4)[i as int]);
            return None;
        }
        i = i + 1;
    }
    assert(head =~= banner(v4));
    Some(v4)
}

/// The value of a hexadecimal digit, in either case.
pub open spec fn hex_digit_value(b: u8) -> Option<u8> {
    if 48 <= b <= 57 {
        Some((b - 48) as u8)
    } else if 97 <= b <= 102 {
        Some((b - 87) as u8)
    } else if 65 <= b <= 70 {
        Some((b - 55) as u8)
    } else {
        None
    }
}

/// The index of the first byte at or after `from` that is no hexadecimal
/// digit; the length of `s` where there is none.
pub open spec fn first_non_hex(s: Seq<u8>, from: int) -> int
    decreases s.len() - from,
{
    if 0 <= from < s.len() && hex_digit_value(s[from]) is Some {
        first_non_hex(s, from + 1)
    } else {
        from
    }
}

/// The bytes that the pairs of hexadecimal digits in `s` denote, in order.
pub open spec fn hex_decode(s: Seq<u8>) -> Seq<u8> {
    Seq::new(
        s.len() / 2,
        |i: int|
            (16 * hex_digit_value(s[2 * i]).unwrap()
                + hex_digit_value(s[2 * i + 1]).unwrap()) as u8,
    )
}

/// The byte at `i` after restoration: a line-feed mark becomes a line feed,
/// and a carriage-return mark directly before a line-feed mark becomes a
/// carriage return.
pub open spec fn restored_byte(t: Seq<u8>, i: int) -> u8 {
    if t[i] == LINE_FEED_MARK {
        LINE_FEED
    } else if t[i] == CARRIAGE_RETURN_MARK && i + 1 < t.len() && t[i + 1] == LINE_FEED_MARK {
        CARRIAGE_RETURN
    } else {
        t[i]
    }
}

/// A text field with its line terminators restored.
pub open spec fn restore(t: Seq<u8>) -> Seq<u8> {
    Seq::new(t.len(), |i: int| restored_byte(t, i))
}

/// The byte at `i` as a dump holds it: a line feed becomes the line-feed
/// mark, and a carriage return directly before a line feed becomes the
/// carriage-return mark.
pub open spec fn marked_byte(s: Seq<u8>, i: int) -> u8 {
    if s[i] == LINE_FEED {
        LINE_FEED_MARK
    } else if s[i] == CARRIAGE_RETURN && i + 1 < s.len() && s[i + 1] == LINE_FEED {
        CARRIAGE_RETURN_MARK
    } else {
        s[i]
    }
}

/// A text field as a dump holds it, its line terminators replaced by marks.
pub open spec fn mark(s: Seq<u8>) -> Seq<u8> {
    Seq::new(s.len(), |i: int| marked_byte(s, i))
}

/// Whether `s` can be told apart from its marked form: it holds no line-feed
/// mark, and no carriage-return mark directly before a line feed.
pub open spec fn free_of_marks(s: Seq<u8>) -> bool {
    forall|i: int|
        0 <= i < s.len() ==> #[trigger] s[i] != LINE_FEED_MARK && !(s[i] == CARRIAGE_RETURN_MARK
            && i + 1 < s.len() && s[i + 1] == LINE_FEED)
}

/// Restoring a marked text field gives the field back, byte for byte,
/// whenever the field itself holds no mark that the restoration would take
/// for a line terminator.
pub proof fn lemma_restore_inverts_mark(s: Seq<u8>)
    requires
        free_of_marks(s),
    ensures
        restore(mark(s)) == s,
{
    let t = mark(s);
    assert forall|i: int| 0 <= i < s.len() implies restored_byte(t, i) == s[i] by {
        assert(s[i] != LINE_FEED_MARK);
        if i + 1 < s.len() {
            assert(s[i + 1] != LINE_FEED_MARK);
        }
    }
    assert(restore(t) =~= s);
}

/// Restores the line terminators of a text field in place.
pub fn restore_newlines(buffer: &mut [u8])
    ensures
        final(buffer)@ == restore(old(buffer)@),
{
    let ghost t = buffer@;
    let n: usize = buffer.len();
    let mut i: usize = 0;
    while i < n
        invariant
            0 <= i <= n,
            n == t.len(),
            buffer@.len() == n,
            forall|j: int| 0 <= j < i - 1 ==> buffer@[j] == restored_byte(t, j),
            i > 0 ==> buffer@[i - 1] == (if t[i - 1] == LINE_FEED_MARK {
                LINE_FEED
            } else {
                t[i - 1]
            }),
            forall|j: int| i <= j < n ==> buffer@[j] == t[j],
        decreases n - i,
    {
        if buffer[i] == LINE_FEED_MARK {
            buffer[i] = LINE_FEED;
            if i > 0 && buffer[i - 1] == CARRIAGE_RETURN_MARK {
                buffer[i - 1] = CARRIAGE_RETURN;
            }
        }
        i = i + 1;
    }
    assert(buffer@ =~= restore(t));
}

/// The bytes of `data` from `from` up to `to`, as a vector of their own.
fn copy_range(data: &[u8], from: usize, to: usize) -> (out: Vec<u8>)
    requires
        from <= to <= data@.len(),
    ensures
        out@ == data@.subrange(from as int, to as int),
{
    slice_to_vec(slice_subrange(data, from, to))
}

/// The value of the hexadecimal digit `b`, if it is one.
fn hex_digit(b: u8) -> (r: Option<u8>)
    ensures
        r == hex_digit_value(b),
{
    if 48 <= b && b <= 57 {
        Some(b - 48)
    } else if 97 <= b && b <= 102 {
        Some(b - 87)
    } else if 65 <= b && b <= 70 {
        Some(b - 55)
    } else {
        None
    }
}

/// Decodes the `count` pairs of hexadecimal digits that begin at `from`; on a
/// byte that is no such digit, the offset of the first one.
pub(crate) fn decode_hex(data: &[u8], from: usize, count: usize) -> (r: Result<Vec<u8>, usize>)
    requires
        from + 2 * count <= data@.len(),
    ensures
        match r {
            Ok(bytes) => {
                &&& first_non_hex(data@.subrange(from as int, from + 2 * count), 0) == 2 * count
                &&& bytes@ == hex_decode(data@.subrange(from as int, from + 2 * count))
            },
            Err(at) => {
                &&& first_non_hex(data@.subrange(from as int, from + 2 * count), 0) < 2 * count
                &&& at == from + first_non_hex(data@.subrange(from as int, from + 2 * count), 0)
            },
        },
{
    let ghost region = data@.subrange(from as int, from + 2 * count);
    let n: usize = data.len();
    let mut out: Vec<u8> = Vec::new();
    let mut k: usize = 0;
    while k < count
        invariant
            0 <= k <= count,
            n == data@.len(),
            from + 2 * count <= data@.len(),
            region == data@.subrange(from as int, from + 2 * count),
            first_non_hex(region, 0) == first_non_hex(region, 2 * k),
            out@.len() == k,
            forall|j: int|
                0 <= j < k ==> #[trigger] out@[j] == (16 * hex_digit_value(region[2 * j]).unwrap()
                    + hex_digit_value(region[2 * j + 1]).unwrap()) as u8,
        decreases count - k,
    {
        let at: usize = from + 2 * k;
        assert(region[2 * k] == data@[at as int]);
        assert(region[2 * k + 1] == data@[at + 1]);
        match hex_digit(data[at]) {
            None => {
                return Err(at);
            },
            Some(high) => {
                match hex_digit(data[at + 1]) {
                    None => {
                        assert(first_non_hex(region, 2 * k) == first_non_hex(region, 2 * k + 1));
                        return Err(at + 1);
                    },
                    Some(low) => {
                        assert(first_non_hex(region, 2 * k) == first_non_hex(region, 2 * k + 1));
                        assert(first_non_hex(region, 2 * k + 1) == first_non_hex(
                            region,
                            2 * k + 2,
                        ));
                        out.push(high * 16 + low);
                    },
                }
            },
        }
        k = k + 1;
    }
    assert(out@ =~= hex_decode(region));
    Ok(out)
}

/// The index of the token that declares the length of the name; the other
/// lengths follow it.
pub open spec fn first_length(v4: bool) -> int {
    if v4 {
        9
    } else {
        8
    }
}

/// The length that the record declares for the field at `k`: the name at 0,
/// the description at 1, the action at 2, the payload at 3. A version-3
/// record declares no payload, and its length is zero.
pub open spec fn declared_len(data: Seq<u8>, pos: int, v4: bool, k: int) -> int {
    if k == 3 && !v4 {
        0
    } else {
        usize_of_text(field_text(data, pos, (first_length(v4) + k) as nat)).unwrap() as int
    }
}

/// Where the field at `k` begins: the name directly after the last numeric
/// token, each later field directly after the one before it. The payload
/// takes two bytes of the dump for each byte that it declares.
pub open spec fn field_at(data: Seq<u8>, pos: int, v4: bool, k: int) -> int
    decreases k,
{
    if k <= 0 {
        field_start(data, pos, field_count(v4) as nat)
    } else if k <= 3 {
        field_at(data, pos, v4, k - 1) + declared_len(data, pos, v4, k - 1)
    } else {
        field_at(data, pos, v4, 3) + 2 * declared_len(data, pos, v4, 3)
    }
}

/// The first of the four fields that the dump is too short for, or 4 where
/// it holds them all.
pub open spec fn first_short_field(data: Seq<u8>, pos: int, v4: bool, k: int) -> int
    decreases 4 - k,
{
    if k >= 4 {
        4
    } else if field_at(data, pos, v4, k + 1) > data.len() {
        k
    } else {
        first_short_field(data, pos, v4, k + 1)
    }
}

/// The bytes of the field at `k` as the dump holds them.
pub open spec fn raw_field(data: Seq<u8>, pos: int, v4: bool, k: int) -> Seq<u8> {
    data.subrange(field_at(data, pos, v4, k), field_at(data, pos, v4, k + 1))
}

/// The 32-bit integer that the token at index `i` denotes.
pub open spec fn integer_field(data: Seq<u8>, pos: int, i: nat) -> i32 {
    i32_of_text(field_text(data, pos, i)).unwrap()
}

/// The object that a well-framed record at `pos` holds.
pub open spec fn object_at(data: Seq<u8>, pos: int, v4: bool) -> ObjectView {
    ObjectView {
        id: integer_field(data, pos, 0),
        timestamp: integer_field(data, pos, 1),
        x: field_text(data, pos, 2),
        y: field_text(data, pos, 3),
        z: field_text(data, pos, 4),
        yaw: field_text(data, pos, 5),
        tilt: field_text(data, pos, 6),
        roll: field_text(data, pos, 7),
        kind: if v4 {
            integer_field(data, pos, 8)
        } else {
            0
        },
        name: raw_field(data, pos, v4, 0),
        description: restore(raw_field(data, pos, v4, 1)),
        action: restore(raw_field(data, pos, v4, 2)),
        payload: hex_decode(raw_field(data, pos, v4, 3)),
    }
}

/// Where the record after a well-framed record at `pos` begins: two bytes
/// past its payload, or at the end of the dump where fewer are left.
pub open spec fn record_end(data: Seq<u8>, pos: int, v4: bool) -> int {
    if field_at(data, pos, v4, 4) + 2 <= data.len() {
        field_at(data, pos, v4, 4) + 2
    } else {
        data.len() as int
    }
}

/// What decoding finds at one place in a dump.
pub enum Decoded {
    /// No record begins here: the records have come to their end.
    End,
    /// A record begins here and is broken.
    Corrupt(DecodeError),
    /// A record, and the offset at which the next one begins.
    Record(ObjectView, int),
}

/// What decoding finds at `pos`.
///
/// Where the first numeric token cannot be read, the records end. Where a
/// later token cannot, or the dump is too short for a field, the record is
/// broken at the offset of that token or field; where the payload holds a
/// byte that is no hexadecimal digit, at the offset of that byte.
#[verifier::opaque]
pub open spec fn decode_record(data: Seq<u8>, pos: int, v4: bool) -> Decoded {
    let bad = first_bad_field(data, pos, 0, v4);
    let short = first_short_field(data, pos, v4, 0);
    let stray = first_non_hex(raw_field(data, pos, v4, 3), 0);
    if bad == 0 {
        Decoded::End
    } else if bad < field_count(v4) {
        Decoded::Corrupt(DecodeError::Frame(field_start(data, pos, bad) as usize))
    } else if short < 4 {
        Decoded::Corrupt(DecodeError::Frame(field_at(data, pos, v4, short) as usize))
    } else if stray < raw_field(data, pos, v4, 3).len() {
        Decoded::Corrupt(DecodeError::Payload((field_at(data, pos, v4, 3) + stray) as usize))
    } else {
        Decoded::Record(object_at(data, pos, v4), record_end(data, pos, v4))
    }
}

/// Reads the numeric tokens of a record that begins at `pos`.
///
/// On success the vector holds where each token begins, and last where the
/// name begins. On failure the pair holds the index of the first token that
/// is missing or malformed, and the offset at which it begins.
fn scan_fields(data: &[u8], pos: usize, v4: bool) -> (r: Result<Vec<usize>, (usize, usize)>)
    requires
        pos <= data@.len(),
    ensures
        match r {
            Ok(starts) => {
                &&& first_bad_field(data@, pos as int, 0, v4) == field_count(v4)
                &&& starts@.len() == field_count(v4) + 1
                &&& forall|j: int|
                    0 <= j <= field_count(v4) ==> #[trigger] starts@[j] == field_start(
                        data@,
                        pos as int,
                        j as nat,
                    )
                &&& forall|j: int|
                    0 <= j < field_count(v4) ==> starts@[j] < #[trigger] starts@[j + 1]
                        <= data@.len()
                &&& forall|j: nat|
                    j < field_count(v4) ==> #[trigger] field_ok(data@, pos as int, j, v4)
            },
            Err((i, at)) => {
                &&& first_bad_field(data@, pos as int, 0, v4) == i
                &&& i < field_count(v4)
                &&& at == field_start(data@, pos as int, i as nat)
                &&& at <= data@.len()
            },
        },
{
    let count: usize = if v4 {
        13
    } else {
        11
    };
    let n: usize = data.len();
    let mut starts: Vec<usize> = Vec::new();
    starts.push(pos);
    let mut cur: usize = pos;
    let mut i: usize = 0;
    while i < count
        invariant
            0 <= i <= count,
            count == field_count(v4),
            n == data@.len(),
            cur <= n,
            cur == field_start(data@, pos as int, i as nat),
            first_bad_field(data@, pos as int, 0, v4) == first_bad_field(
                data@,
                pos as int,
                i as nat,
                v4,
            ),
            starts@.len() == i + 1,
            forall|j: int|
                0 <= j <= i ==> #[trigger] starts@[j] == field_start(data@, pos as int, j as nat),
            forall|j: int| 0 <= j < i ==> starts@[j] < #[trigger] starts@[j + 1] <= n,
            forall|j: nat| j < i ==> #[trigger] field_ok(data@, pos as int, j, v4),
        decreases count - i,
    {
        let end: usize = find_space(data, cur);
        if end >= n {
            return Err((i, cur));
        }
        let token = slice_subrange(data, cur, end);
        let fits: bool = if i < 2 {
            parse_i32(token).is_some()
        } else if i < 8 {
            is_float(token)
        } else if v4 && i == 8 {
            parse_i32(token).is_some()
        } else {
            parse_usize(token).is_some()
        };
        assert(fits == field_ok(data@, pos as int, i as nat, v4));
        if !fits {
            return Err((i, cur));
        }
        cur = end + 1;
        starts.push(cur);
        i = i + 1;
    }
    Ok(starts)
}

/// The text of the token at index `j`, given where the tokens begin.
fn token<'a>(data: &'a [u8], starts: &Vec<usize>, j: usize, Ghost(pos): Ghost<int>) -> (text:
    &'a [u8])
    requires
        j + 1 < starts@.len(),
        forall|k: int|
            0 <= k < starts@.len() ==> #[trigger] starts@[k] == field_start(data@, pos, k as nat),
        forall|k: int|
            0 <= k < starts@.len() - 1 ==> starts@[k] < #[trigger] starts@[k + 1] <= data@.len(),
    ensures
        text@ == field_text(data@, pos, j as nat),
{
    let m: usize = starts.len();
    assert(starts@[j + 1] == field_start(data@, pos, (j + 1) as nat));
    assert(starts@[j as int] < starts@[j + 1]);
    slice_subrange(data, starts[j], starts[j + 1] - 1)
}

/// A decoder at some place in a dump: the bytes of the dump, the version that
/// its banner named, and the offset at which the next record begins.
#[derive(Debug)]
pub struct Propdump {
    data: Vec<u8>,
    pos: usize,
    v4: bool,
}

impl Propdump {
    #[verifier::type_invariant]
    spec fn in_bounds(&self) -> bool {
        self.pos <= self.data@.len()
    }

    /// The bytes of the dump.
    pub closed spec fn input(&self) -> Seq<u8> {
        self.data@
    }

    /// The offset at which the next record begins.
    pub closed spec fn offset(&self) -> int {
        self.pos as int
    }

    /// Whether the banner named version 4.
    pub closed spec fn version4(&self) -> bool {
        self.v4
    }

    /// Opens a dump: reads its banner, and stands at the first record.
    ///
    /// The dump is refused unless it opens with one of the two banners.
    pub fn new(data: Vec<u8>) -> (r: Result<Propdump, DecodeError>)
        ensures
            match r {
                Ok(dump) => {
                    &&& has_banner(data@, false) || has_banner(data@, true)
                    &&& dump.input() == data@
                    &&& dump.offset() == BANNER_LEN
                    &&& dump.version4() == has_banner(data@, true)
                },
                Err(e) => {
                    &&& e == DecodeError::Format
                    &&& !has_banner(data@, false)
                    &&& !has_banner(data@, true)
                },
            },
    {
        match read_banner(data.as_slice()) {
            Some(v4) => Ok(Propdump { data, pos: BANNER_LEN, v4 }),
            None => Err(DecodeError::Format),
        }
    }

    /// Whether the dump is of version 4.
    pub fn is_v4(&self) -> (r: bool)
        ensures
            r == self.version4(),
    {
        self.v4
    }

    /// The offset at which the next record begins.
    pub fn position(&self) -> (r: usize)
        ensures
            r == self.offset(),
            r <= self.input().len(),
    {
        proof {
            use_type_invariant(self);
        }
        self.pos
    }

    /// Decodes the next record and moves past it.
    ///
    /// `Ok(None)` says that the records have come to their end, and an error
    /// that a record is broken; in both cases the decoder stays where it is,
    /// so that every later call gives the same answer.
    #[verifier::rlimit(30)]
    pub fn next(&mut self) -> (r: Result<Option<Object>, DecodeError>)
        ensures
            final(self).input() == old(self).input(),
            final(self).version4() == old(self).version4(),
            match decode_record(old(self).input(), old(self).offset(), old(self).version4()) {
                Decoded::End => r matches Ok(None) && final(self).offset() == old(self).offset(),
                Decoded::Corrupt(e) => r matches Err(f) && f == e && final(self).offset() == old(
                    self,
                ).offset(),
                Decoded::Record(object, next) => {
                    &&& r matches Ok(Some(found)) && found@ == object
                    &&& final(self).offset() == next
                },
            },
    {
        proof {
            use_type_invariant(&*self);
            reveal(decode_record);
            reveal_with_fuel(field_at, 6);
            reveal_with_fuel(first_short_field, 6);
        }
        let v4: bool = self.v4;
        let pos: usize = self.pos;
        let data: &[u8] = self.data.as_slice();
        let n: usize = data.len();
        let starts: Vec<usize> = match scan_fields(data, pos, v4) {
            Err((i, at)) => {
                if i == 0 {
                    return Ok(None);
                } else {
                    return Err(DecodeError::Frame(at));
                }
            },
            Ok(starts) => starts,
        };
        let ghost p = pos as int;
        let count: usize = if v4 {
            13
        } else {
            11
        };
        let lengths: usize = if v4 {
            9
        } else {
            8
        };
        assert(field_ok(data@, p, 0, v4));
        assert(field_ok(data@, p, 1, v4));
        assert(field_ok(data@, p, 8, v4));
        assert(field_ok(data@, p, lengths as nat, v4));
        assert(field_ok(data@, p, (lengths + 1) as nat, v4));
        assert(field_ok(data@, p, (lengths + 2) as nat, v4));
        let id: i32 = parse_i32(token(data, &starts, 0, Ghost(p))).unwrap();
        let timestamp: i32 = parse_i32(token(data, &starts, 1, Ghost(p))).unwrap();
        let kind: i32 = if v4 {
            parse_i32(token(data, &starts, 8, Ghost(p))).unwrap()
        } else {
            0
        };
        let name_len: usize = parse_usize(token(data, &starts, lengths, Ghost(p))).unwrap();
        let description_len: usize = parse_usize(
            token(data, &starts, lengths + 1, Ghost(p)),
        ).unwrap();
        let action_len: usize = parse_usize(token(data, &starts, lengths + 2, Ghost(p))).unwrap();
        let payload_len: usize = if v4 {
            assert(field_ok(data@, p, 12, v4));
            parse_usize(token(data, &starts, 12, Ghost(p))).unwrap()
        } else {
            0
        };
        assert(name_len == declared_len(data@, p, v4, 0));
        assert(description_len == declared_len(data@, p, v4, 1));
        assert(action_len == declared_len(data@, p, v4, 2));
        assert(payload_len == declared_len(data@, p, v4, 3));
        let name_at: usize = starts[count];
        assert(name_at == field_at(data@, p, v4, 0));
        if name_len > n - name_at {
            return Err(DecodeError::Frame(name_at));
        }
        let description_at: usize = name_at + name_len;
        if description_len > n - description_at {
            return Err(DecodeError::Frame(description_at));
        }
        let action_at: usize = description_at + description_len;
        if action_len > n - action_at {
            return Err(DecodeError::Frame(action_at));
        }
        let payload_at: usize = action_at + action_len;
        if payload_len > (n - payload_at) / 2 {
            return Err(DecodeError::Frame(payload_at));
        }
        let payload_end: usize = payload_at + 2 * payload_len;
        assert(payload_end == field_at(data@, p, v4, 4));
        assert(first_short_field(data@, p, v4, 0) == 4);
        let payload: Vec<u8> = match decode_hex(data, payload_at, payload_len) {
            Err(at) => {
                return Err(DecodeError::Payload(at));
            },
            Ok(bytes) => bytes,
        };
        let mut description: Vec<u8> = copy_range(data, description_at, action_at);
        restore_newlines(description.as_mut_slice());
        let mut action: Vec<u8> = copy_range(data, action_at, payload_at);
        restore_newlines(action.as_mut_slice());
        let object = Object {
            id,
            timestamp,
            x: slice_to_vec(token(data, &starts, 2, Ghost(p))),
            y: slice_to_vec(token(data, &starts, 3, Ghost(p))),
            z: slice_to_vec(token(data, &starts, 4, Ghost(p))),
            yaw: slice_to_vec(token(data, &starts, 5, Ghost(p))),
            tilt: slice_to_vec(token(data, &starts, 6, Ghost(p))),
            roll: slice_to_vec(token(data, &starts, 7, Ghost(p))),
            kind,
            name: copy_range(data, name_at, description_at),
            description,
            action,
            payload,
        };
        let next: usize = if n - payload_end >= 2 {
            payload_end + 2
        } else {
            n
        };
        self.pos = next;
        Ok(Some(object))
    }
}

/// What the objects of a vector hold, in order.
pub open spec fn views(objects: Seq<Object>) -> Seq<ObjectView> {
    objects.map_values(|o: Object| o@)
}

/// The records `front`, then what decoding the rest of the dump gave.
pub open spec fn prepend(
    front: Seq<ObjectView>,
    rest: Result<Seq<ObjectView>, DecodeError>,
) -> Result<Seq<ObjectView>, DecodeError> {
    match rest {
        Ok(tail) => Ok(front + tail),
        Err(e) => Err(e),
    }
}

/// The records of a dump from `pos` on: every record up to the place where
/// the records end, or the error of the first broken record.
pub open spec fn decode_records(data: Seq<u8>, pos: int, v4: bool) -> Result<
    Seq<ObjectView>,
    DecodeError,
>
    decreases data.len() - pos,
{
    match decode_record(data, pos, v4) {
        Decoded::End => Ok(Seq::empty()),
        Decoded::Corrupt(e) => Err(e),
        Decoded::Record(object, next) => if pos < next <= data.len() {
            prepend(seq![object], decode_records(data, next, v4))
        } else {
            Ok(seq![object])
        },
    }
}

/// The records of a whole dump, or why it cannot be decoded.
pub open spec fn decode_dump(data: Seq<u8>) -> Result<Seq<ObjectView>, DecodeError> {
    if has_banner(data, false) {
        decode_records(data, BANNER_LEN as int, false)
    } else if has_banner(data, true) {
        decode_records(data, BANNER_LEN as int, true)
    } else {
        Err(DecodeError::Format)
    }
}

/// A token ends at or after the place where it begins, and inside the dump.
pub proof fn lemma_token_end_bounds(data: Seq<u8>, from: int)
    ensures
        from <= token_end(data, from),
        0 <= from <= data.len() ==> token_end(data, from) <= data.len(),
    decreases data.len() - from,
{
    if 0 <= from < data.len() && data[from] != SPACE {
        lemma_token_end_bounds(data, from + 1);
    }
}

/// Every numeric token takes at least the byte that closes it.
pub proof fn lemma_field_start_increases(data: Seq<u8>, pos: int, i: nat)
    ensures
        pos + i <= field_start(data, pos, i),
    decreases i,
{
    if i > 0 {
        lemma_field_start_increases(data, pos, (i - 1) as nat);
        lemma_token_end_bounds(data, field_start(data, pos, (i - 1) as nat));
    }
}

/// A record ends after the place where it begins, and inside the dump.
pub proof fn lemma_record_advances(data: Seq<u8>, pos: int, v4: bool)
    requires
        0 <= pos <= data.len(),
    ensures
        decode_record(data, pos, v4) matches Decoded::Record(_, next) ==> pos < next <= data.len(),
{
    reveal(decode_record);
    reveal_with_fuel(field_at, 6);
    reveal_with_fuel(first_short_field, 6);
    lemma_field_start_increases(data, pos, field_count(v4) as nat);
}

/// In every record the name, the description, the action and the payload
/// have the lengths that the record declares for them, and the record takes
/// two bytes of the dump for each byte of its payload.
pub proof fn lemma_declared_lengths(data: Seq<u8>, pos: int, v4: bool)
    requires
        0 <= pos <= data.len(),
    ensures
        decode_record(data, pos, v4) matches Decoded::Record(object, next) ==> {
            &&& object.name.len() == declared_len(data, pos, v4, 0)
            &&& object.description.len() == declared_len(data, pos, v4, 1)
            &&& object.action.len() == declared_len(data, pos, v4, 2)
            &&& object.payload.len() == declared_len(data, pos, v4, 3)
            &&& field_at(data, pos, v4, 4) - field_at(data, pos, v4, 3) == 2 * object.payload.len()
            &&& next == record_end(data, pos, v4)
        },
{
    reveal(decode_record);
    reveal_with_fuel(field_at, 6);
    reveal_with_fuel(first_short_field, 6);
    lemma_field_start_increases(data, pos, field_count(v4) as nat);
}

/// A record of a version-3 dump has no object type and no payload, whatever
/// follows its action: its object type is zero, its payload is empty, and
/// the record ends with the two bytes that follow the action.
pub proof fn lemma_version3_has_no_payload(data: Seq<u8>, pos: int)
    requires
        0 <= pos <= data.len(),
    ensures
        decode_record(data, pos, false) matches Decoded::Record(object, next) ==> {
            &&& object.kind == 0
            &&& object.payload == Seq::<u8>::empty()
            &&& field_at(data, pos, false, 4) == field_at(data, pos, false, 2) + object.action.len()
        },
{
    reveal(decode_record);
    reveal_with_fuel(field_at, 6);
    reveal_with_fuel(first_short_field, 6);
    lemma_field_start_increases(data, pos, field_count(false) as nat);
    if decode_record(data, pos, false) is Record {
        assert(raw_field(data, pos, false, 3).len() == 0);
        assert(hex_decode(raw_field(data, pos, false, 3)) =~= Seq::<u8>::empty());
    }
}

/// A dump in which no first token can be read after the banner decodes to
/// no records, and that is no error.
pub proof fn lemma_no_first_token_is_empty(data: Seq<u8>, v4: bool)
    requires
        has_banner(data, v4),
        !field_ok(data, BANNER_LEN as int, 0, v4),
    ensures
        decode_dump(data) == Ok::<Seq<ObjectView>, DecodeError>(Seq::empty()),
{
    reveal(decode_record);
    assert(banner(true)[17] != banner(false)[17]);
    assert(!has_banner(data, !v4));
    assert(decode_record(data, BANNER_LEN as int, v4) is End);
}

/// A dump that holds a banner and nothing else decodes to no records, and
/// that is no error.
pub proof fn lemma_banner_alone_is_empty(v4: bool)
    ensures
        decode_dump(banner(v4)) == Ok::<Seq<ObjectView>, DecodeError>(Seq::empty()),
{
    let data = banner(v4);
    assert(data.subrange(0, BANNER_LEN as int) =~= data);
    lemma_no_first_token_is_empty(data, v4);
}

/// One step of decoding a dump: what the records from `pos` on are, given
/// what is found at `pos`.
pub proof fn lemma_decode_step(data: Seq<u8>, pos: int, v4: bool, front: Seq<ObjectView>)
    requires
        0 <= pos <= data.len(),
    ensures
        match decode_record(data, pos, v4) {
            Decoded::End => prepend(front, decode_records(data, pos, v4)) == Ok::<
                Seq<ObjectView>,
                DecodeError,
            >(front),
            Decoded::Corrupt(e) => prepend(front, decode_records(data, pos, v4)) == Err::<
                Seq<ObjectView>,
                DecodeError,
            >(e),
            Decoded::Record(object, next) => {
                &&& pos < next <= data.len()
                &&& prepend(front, decode_records(data, pos, v4)) == prepend(
                    front.push(object),
                    decode_records(data, next, v4),
                )
            },
        },
{
    lemma_record_advances(data, pos, v4);
    match decode_record(data, pos, v4) {
        Decoded::End => {
            assert(front + Seq::<ObjectView>::empty() =~= front);
        },
        Decoded::Corrupt(e) => {},
        Decoded::Record(object, next) => {
            match decode_records(data, next, v4) {
                Ok(tail) => {
                    assert(front + (seq![object] + tail) =~= front.push(object) + tail);
                },
                Err(_) => {},
            }
        },
    }
}

/// Decodes a whole dump: every record in order, or the first error. Where a
/// record is broken no record is handed out, not even those before it.
pub fn decode(data: Vec<u8>) -> (r: Result<Vec<Object>, DecodeError>)
    ensures
        match decode_dump(data@) {
            Ok(objects) => r matches Ok(found) && views(found@) == objects,
            Err(e) => r matches Err(f) && f == e,
        },
{
    let ghost bytes = data@;
    let mut dump = match Propdump::new(data) {
        Ok(dump) => dump,
        Err(e) => {
            return Err(e);
        },
    };
    let ghost v4 = dump.version4();
    let mut out: Vec<Object> = Vec::new();
    proof {
        assert(views(out@) =~= Seq::<ObjectView>::empty());
        match decode_records(bytes, BANNER_LEN as int, v4) {
            Ok(tail) => {
                assert(views(out@) + tail =~= tail);
            },
            Err(_) => {},
        }
    }
    loop
        invariant
            bytes == data@,
            dump.input() == bytes,
            dump.version4() == v4,
            decode_dump(bytes) == prepend(views(out@), decode_records(bytes, dump.offset(), v4)),
        decreases bytes.len() - dump.offset(),
    {
        let at: usize = dump.position();
        proof {
            lemma_decode_step(bytes, at as int, v4, views(out@));
        }
        match dump.next() {
            Ok(None) => {
                return Ok(out);
            },
            Err(e) => {
                return Err(e);
            },
            Ok(Some(object)) => {
                let ghost before = out@;
                out.push(object);
                assert(views(out@) =~= views(before).push(object@));
            },
        }
    }
}

} // verus!
