//! The fingerprint of a collection of schemas, the marker line that records
//! it in generated code, and the check of generated code against schemas.

use crate::canonical::{
    encode_schemas, encode_schemas_of, lemma_canonical_text_tells_apart, same_schemas,
    sized_schemas,
};
use crate::error::ValidationError;
use crate::schema::{schema_views, Schema, SchemaView};
use crate::text::{chars_of, has_at, stands_at};
use vstd::prelude::*;
use vstd::string::StringExecFns;

verus! {

/// The 64-bit XXH3 hash of a sequence of bytes, with the default seed and
/// secret.
pub uninterp spec fn xxh3_digest(bytes: Seq<u8>) -> u64;

/// `xxhash_rust::xxh3::xxh3_64` computes the hash from the bytes of its
/// input alone: the same bytes always give the same number.
pub assume_specification[ xxhash_rust::xxh3::xxh3_64 ](input: &[u8]) -> (h: u64)
    ensures
        h == xxh3_digest(input@),
;

/// The lower-case hexadecimal digit for a number below sixteen.
pub open spec fn hex_digit(d: u64) -> char {
    if d < 10 {
        (('0' as u8) + (d as u8)) as char
    } else {
        (('a' as u8) + ((d - 10) as u8)) as char
    }
}

/// The `i`-th group of four bits of `v`, counted from the highest.
pub open spec fn nibble(v: u64, i: int) -> u64 {
    (v >> ((60 - 4 * i) as u64)) & 0xf
}

/// `v` as sixteen lower-case hexadecimal digits, the highest first.
pub open spec fn hex16(v: u64) -> Seq<char> {
    Seq::new(16, |i: int| hex_digit(nibble(v, i)))
}

proof fn lemma_nibble_bound(v: u64, i: int)
    requires
        0 <= i < 16,
    ensures
        nibble(v, i) < 16,
{
    let shift = (60 - 4 * i) as u64;
    let d = nibble(v, i);
    assert(d < 16) by (bit_vector)
        requires
            d == (v >> shift) & 0xf,
    ;
}

/// Different numbers have different digits.
pub proof fn lemma_hex16_injective(x: u64, y: u64)
    requires
        hex16(x) == hex16(y),
    ensures
        x == y,
{
    assert forall|i: int| 0 <= i < 16 implies nibble(x, i) == nibble(y, i) by {
        lemma_nibble_bound(x, i);
        lemma_nibble_bound(y, i);
        assert(hex16(x)[i] == hex_digit(nibble(x, i)));
        assert(hex16(y)[i] == hex_digit(nibble(y, i)));
    }
    assert(nibble(x, 0) == (x >> 60) & 0xf && nibble(y, 0) == (y >> 60) & 0xf);
    assert(nibble(x, 1) == (x >> 56) & 0xf && nibble(y, 1) == (y >> 56) & 0xf);
    assert(nibble(x, 2) == (x >> 52) & 0xf && nibble(y, 2) == (y >> 52) & 0xf);
    assert(nibble(x, 3) == (x >> 48) & 0xf && nibble(y, 3) == (y >> 48) & 0xf);
    assert(nibble(x, 4) == (x >> 44) & 0xf && nibble(y, 4) == (y >> 44) & 0xf);
    assert(nibble(x, 5) == (x >> 40) & 0xf && nibble(y, 5) == (y >> 40) & 0xf);
    assert(nibble(x, 6) == (x >> 36) & 0xf && nibble(y, 6) == (y >> 36) & 0xf);
    assert(nibble(x, 7) == (x >> 32) & 0xf && nibble(y, 7) == (y >> 32) & 0xf);
    assert(nibble(x, 8) == (x >> 28) & 0xf && nibble(y, 8) == (y >> 28) & 0xf);
    assert(nibble(x, 9) == (x >> 24) & 0xf && nibble(y, 9) == (y >> 24) & 0xf);
    assert(nibble(x, 10) == (x >> 20) & 0xf && nibble(y, 10) == (y >> 20) & 0xf);
    assert(nibble(x, 11) == (x >> 16) & 0xf && nibble(y, 11) == (y >> 16) & 0xf);
    assert(nibble(x, 12) == (x >> 12) & 0xf && nibble(y, 12) == (y >> 12) & 0xf);
    assert(nibble(x, 13) == (x >> 8) & 0xf && nibble(y, 13) == (y >> 8) & 0xf);
    assert(nibble(x, 14) == (x >> 4) & 0xf && nibble(y, 14) == (y >> 4) & 0xf);
    assert(nibble(x, 15) == (x >> 0) & 0xf && nibble(y, 15) == (y >> 0) & 0xf);
    assert(x == y) by (bit_vector)
        requires
            (x >> 60) & 0xf == (y >> 60) & 0xf,
            (x >> 56) & 0xf == (y >> 56) & 0xf,
            (x >> 52) & 0xf == (y >> 52) & 0xf,
            (x >> 48) & 0xf == (y >> 48) & 0xf,
            (x >> 44) & 0xf == (y >> 44) & 0xf,
            (x >> 40) & 0xf == (y >> 40) & 0xf,
            (x >> 36) & 0xf == (y >> 36) & 0xf,
            (x >> 32) & 0xf == (y >> 32) & 0xf,
            (x >> 28) & 0xf == (y >> 28) & 0xf,
            (x >> 24) & 0xf == (y >> 24) & 0xf,
            (x >> 20) & 0xf == (y >> 20) & 0xf,
            (x >> 16) & 0xf == (y >> 16) & 0xf,
            (x >> 12) & 0xf == (y >> 12) & 0xf,
            (x >> 8) & 0xf == (y >> 8) & 0xf,
            (x >> 4) & 0xf == (y >> 4) & 0xf,
            (x >> 0) & 0xf == (y >> 0) & 0xf,
    ;
}

/// `v` as sixteen lower-case hexadecimal digits, the highest first.
pub fn to_hex16(v: u64) -> (out: String)
    ensures
        out@ == hex16(v),
{
    let mut out = String::new();
    let mut i: u64 = 0;
    while i < 16
        invariant
            i <= 16,
            out@ == hex16(v).take(i as int),
        decreases 16 - i,
    {
        let shift: u64 = 60 - 4 * i;
        let d: u64 = (v >> shift) & 0xf;
        assert(d < 16) by (bit_vector)
            requires
                d == (v >> shift) & 0xf,
        ;
        let c = if d < 10 {
            (('0' as u8) + (d as u8)) as char
        } else {
            (('a' as u8) + ((d - 10) as u8)) as char
        };
        assert(c == hex16(v)[i as int]);
        out.push(c);
        assert(hex16(v).take(i + 1) == hex16(v).take(i as int).push(hex16(v)[i as int]));
        i += 1;
    }
    assert(hex16(v).take(16) == hex16(v));
    out
}

/// The fingerprint of a text: the hash of its bytes in UTF-8, as sixteen
/// hexadecimal digits.
pub open spec fn fingerprint_of(text: Seq<char>) -> Seq<char> {
    hex16(xxh3_digest(vstd::utf8::encode_utf8(text)))
}

/// The fingerprint of a text.
pub fn fingerprint(text: &str) -> (out: String)
    ensures
        out@ == fingerprint_of(text@),
{
    to_hex16(xxhash_rust::xxh3::xxh3_64(text.as_bytes()))
}

/// What a line of generated code starts with where it records the
/// fingerprint of the schemas.
pub const HASH_COMMAND_PREFIX: &'static str = "// Hash:";

/// The marker: the text that `HASH_COMMAND_PREFIX` holds.
pub open spec fn marker() -> Seq<char> {
    seq!['/', '/', ' ', 'H', 'a', 's', 'h', ':']
}

/// A line of `src` starts at place `i`.
pub open spec fn line_starts_at(src: Seq<char>, i: int) -> bool {
    i == 0 || (0 < i <= src.len() && src[i - 1] == '\n')
}

/// The first place from `from` on where a line of `src` starts with the
/// marker.
pub open spec fn find_marker(src: Seq<char>, from: int) -> Option<int>
    decreases src.len() + 1 - from,
{
    if from < 0 || from > src.len() {
        None
    } else if line_starts_at(src, from) && has_at(src, from, marker()) {
        Some(from)
    } else {
        find_marker(src, from + 1)
    }
}

/// The place where the line that holds place `from` ends.
pub open spec fn line_end(src: Seq<char>, from: int) -> int
    decreases src.len() - from,
{
    if from < 0 || from >= src.len() {
        src.len() as int
    } else if src[from] == '\n' {
        from
    } else {
        line_end(src, from + 1)
    }
}

/// The first place from `from` on where the marker stands in `src` and ends
/// no later than `to`; `to` where there is none.
pub open spec fn next_marker(src: Seq<char>, from: int, to: int) -> int
    decreases to - from,
{
    if from < 0 || from >= to {
        to
    } else if has_at(src, from, marker()) && from + marker().len() <= to {
        from
    } else {
        next_marker(src, from + 1, to)
    }
}

/// A white-space character.
pub open spec fn is_space(c: char) -> bool {
    let n = c as u32;
    (0x09 <= n <= 0x0d) || n == 0x20 || n == 0x85 || n == 0xa0 || n == 0x1680 || (0x2000 <= n
        <= 0x200a) || n == 0x2028 || n == 0x2029 || n == 0x202f || n == 0x205f || n == 0x3000
}

/// The first place from `lo` on, below `hi`, that holds no white space;
/// `hi` where there is none.
pub open spec fn skip_spaces(src: Seq<char>, lo: int, hi: int) -> int
    decreases hi - lo,
{
    if 0 <= lo < hi && hi <= src.len() && is_space(src[lo]) {
        skip_spaces(src, lo + 1, hi)
    } else {
        lo
    }
}

/// The place after the last one below `hi`, from `lo` on, that holds no
/// white space; `lo` where there is none.
pub open spec fn drop_spaces(src: Seq<char>, lo: int, hi: int) -> int
    decreases hi - lo,
{
    if 0 <= lo < hi && hi <= src.len() && is_space(src[hi - 1]) {
        drop_spaces(src, lo, hi - 1)
    } else {
        hi
    }
}

/// The fingerprint that `src` records: what follows the marker on the
/// first line that starts with it, up to the end of that line or to the
/// next marker on it, without the white space around it. `None` where no
/// line starts with the marker.
pub open spec fn hash_in(src: Seq<char>) -> Option<Seq<char>> {
    match find_marker(src, 0) {
        None => None,
        Some(at) => {
            let start = at + marker().len();
            let end = next_marker(src, start, line_end(src, start));
            let first = skip_spaces(src, start, end);
            Some(src.subrange(first, drop_spaces(src, first, end)))
        },
    }
}

/// The text of the marker line for a fingerprint.
pub open spec fn marker_line_of(hash: Seq<char>) -> Seq<char> {
    marker() + seq![' '] + hash
}

/// Generated code with the marker line for `hash` on top.
pub open spec fn stamped(hash: Seq<char>, code: Seq<char>) -> Seq<char> {
    marker_line_of(hash) + seq!['\n'] + code
}

/// A line of `src` starts with the marker at place `i`.
pub open spec fn marker_at(src: Seq<char>, i: int) -> bool {
    line_starts_at(src, i) && has_at(src, i, marker())
}

proof fn lemma_find_marker(src: Seq<char>, from: int)
    requires
        0 <= from,
    ensures
        match find_marker(src, from) {
            Some(at) => from <= at && marker_at(src, at) && forall|i: int|
                from <= i < at ==> !marker_at(src, i),
            None => forall|i: int| from <= i ==> !marker_at(src, i),
        },
    decreases src.len() + 1 - from,
{
    if from <= src.len() && !marker_at(src, from) {
        lemma_find_marker(src, from + 1);
    }
}

/// Generated code records a fingerprint exactly where one of its lines
/// starts with the marker, and the fingerprint is read from the first such
/// line.
pub proof fn lemma_marker_is_found(src: Seq<char>)
    ensures
        hash_in(src) is Some <==> exists|i: int| marker_at(src, i),
        find_marker(src, 0) matches Some(at) ==> marker_at(src, at) && forall|i: int|
            i < at ==> !marker_at(src, i),
{
    lemma_find_marker(src, 0);
    if find_marker(src, 0) is Some {
        let at = find_marker(src, 0).unwrap();
        assert(marker_at(src, at));
    }
}

/// A text that can stand on a marker line as it is: not empty, without
/// white space at either end, without a line break and without a slash.
pub open spec fn plain(hash: Seq<char>) -> bool {
    &&& hash.len() > 0
    &&& !is_space(hash.first())
    &&& !is_space(hash.last())
    &&& forall|i: int| 0 <= i < hash.len() ==> hash[i] != '\n' && hash[i] != '/'
}

proof fn lemma_line_end(src: Seq<char>, from: int, to: int)
    requires
        0 <= from <= to <= src.len(),
        forall|k: int| from <= k < to ==> src[k] != '\n',
        to == src.len() || src[to] == '\n',
    ensures
        line_end(src, from) == to,
    decreases to - from,
{
    if from < to {
        lemma_line_end(src, from + 1, to);
    }
}

proof fn lemma_no_marker(src: Seq<char>, from: int, to: int)
    requires
        0 <= from <= to <= src.len(),
        forall|k: int| from <= k < to ==> src[k] != '/',
    ensures
        next_marker(src, from, to) == to,
    decreases to - from,
{
    if from < to {
        if has_at(src, from, marker()) {
            assert(src.subrange(from, from + marker().len())[0] == marker()[0]);
        }
        lemma_no_marker(src, from + 1, to);
    }
}

/// Every digit of `hex16` is one of `0` to `9` and `a` to `f`.
pub proof fn lemma_hex16_digits(v: u64, i: int)
    requires
        0 <= i < 16,
    ensures
        ('0' <= hex16(v)[i] <= '9') || ('a' <= hex16(v)[i] <= 'f'),
{
    lemma_nibble_bound(v, i);
}

/// The sixteen digits of a fingerprint can stand on a marker line as they
/// are.
pub proof fn lemma_hex16_plain(v: u64)
    ensures
        plain(hex16(v)),
{
    let h = hex16(v);
    assert forall|i: int| 0 <= i < h.len() implies h[i] != '\n' && h[i] != '/' && !is_space(
        h[i],
    ) by {
        lemma_hex16_digits(v, i);
    }
    assert(!is_space(h.first()));
    assert(!is_space(h.last()));
}

/// Hash round trip: generated code that is stamped with a plain text
/// records that text.
pub proof fn lemma_stamp_records(hash: Seq<char>, code: Seq<char>)
    requires
        plain(hash),
    ensures
        hash_in(stamped(hash, code)) == Some(hash),
{
    let src = stamped(hash, code);
    let m = marker().len() as int;
    let end = m + 1 + hash.len();
    assert(src.subrange(0, m) =~= marker());
    assert(find_marker(src, 0) == Some(0int));
    assert(src[m] == ' ');
    assert(src[end] == '\n');
    assert forall|k: int| m + 1 <= k < end implies src[k] == hash[k - m - 1] by {}
    assert forall|k: int| m <= k < end implies src[k] != '\n' && src[k] != '/' by {
        if k > m {
            assert(src[k] == hash[k - m - 1]);
        }
    }
    lemma_line_end(src, m, end);
    lemma_no_marker(src, m, end);
    assert(is_space(src[m]));
    assert(src[m + 1] == hash.first());
    assert(skip_spaces(src, m + 1, end) == m + 1);
    assert(skip_spaces(src, m, end) == m + 1);
    assert(src[end - 1] == hash.last());
    assert(drop_spaces(src, m + 1, end) == end);
    assert(src.subrange(m + 1, end) =~= hash);
}

/// Hash round trip: generated code that is stamped with the fingerprint of
/// a text records that fingerprint.
pub proof fn lemma_fingerprint_round_trip(text: Seq<char>, code: Seq<char>)
    ensures
        hash_in(stamped(fingerprint_of(text), code)) == Some(fingerprint_of(text)),
{
    lemma_hex16_plain(xxh3_digest(vstd::utf8::encode_utf8(text)));
    lemma_stamp_records(fingerprint_of(text), code);
}

proof fn lemma_prefix_is_marker()
    ensures
        HASH_COMMAND_PREFIX@ == marker(),
{
    reveal_strlit("// Hash:");
    assert(HASH_COMMAND_PREFIX@ =~= marker());
}

fn space(c: char) -> (b: bool)
    ensures
        b == is_space(c),
{
    let n = c as u32;
    (0x09 <= n && n <= 0x0d) || n == 0x20 || n == 0x85 || n == 0xa0 || n == 0x1680 || (0x2000 <= n
        && n <= 0x200a) || n == 0x2028 || n == 0x2029 || n == 0x202f || n == 0x205f || n == 0x3000
}

/// The fingerprint that generated code records.
pub fn get_hash_from_src(src: &str) -> (res: Result<String, ValidationError>)
    ensures
        match res {
            Ok(hash) => hash_in(src@) == Some(hash@),
            Err(e) => e == ValidationError::MissingHashMarker && hash_in(src@) is None,
        },
        res is Ok <==> exists|i: int| marker_at(src@, i),
{
    let chars = chars_of(src);
    let pat = chars_of(HASH_COMMAND_PREFIX);
    proof {
        lemma_prefix_is_marker();
        lemma_marker_is_found(src@);
    }
    let n = chars.len();
    let mut at: usize = 0;
    let mut found = false;
    while at < n && !found
        invariant
            at <= n,
            n == chars.len(),
            chars@ == src@,
            pat@ == marker(),
            !found ==> find_marker(src@, at as int) == find_marker(src@, 0),
            found ==> has_at(src@, at as int, marker()) && find_marker(src@, 0) == Some(at as int),
        decreases n - at + (if found { 0int } else { 1int }),
    {
        let starts = at == 0 || chars[at - 1] == '\n';
        if starts && stands_at(&chars, at, &pat) {
            found = true;
        } else {
            at += 1;
        }
    }
    if !found {
        assert(!has_at(src@, n as int, marker()));
        assert(find_marker(src@, n + 1) is None);
        return Err(ValidationError::MissingHashMarker);
    }
    let start = at + pat.len();
    let mut end = start;
    while end < n && chars[end] != '\n'
        invariant
            start <= end <= n,
            n == chars.len(),
            chars@ == src@,
            line_end(src@, end as int) == line_end(src@, start as int),
        decreases n - end,
    {
        end += 1;
    }
    let mut cut = start;
    let mut stop = false;
    while cut < end && !stop
        invariant
            start <= cut <= end <= n,
            n == chars.len(),
            chars@ == src@,
            pat@ == marker(),
            !stop ==> next_marker(src@, cut as int, end as int) == next_marker(
                src@,
                start as int,
                end as int,
            ),
            stop ==> cut < end && next_marker(src@, start as int, end as int) == cut,
        decreases end - cut + (if stop { 0int } else { 1int }),
    {
        if stands_at(&chars, cut, &pat) && pat.len() <= end - cut {
            stop = true;
        } else {
            cut += 1;
        }
    }
    let mut first = start;
    while first < cut && space(chars[first])
        invariant
            start <= first <= cut <= n,
            n == chars.len(),
            chars@ == src@,
            skip_spaces(src@, first as int, cut as int) == skip_spaces(
                src@,
                start as int,
                cut as int,
            ),
        decreases cut - first,
    {
        first += 1;
    }
    let mut last = cut;
    while first < last && space(chars[last - 1])
        invariant
            first <= last <= cut <= n,
            n == chars.len(),
            chars@ == src@,
            drop_spaces(src@, first as int, last as int) == drop_spaces(
                src@,
                first as int,
                cut as int,
            ),
        decreases last - first,
    {
        last -= 1;
    }
    let mut out = String::new();
    let mut k = first;
    while k < last
        invariant
            first <= k <= last <= n,
            n == chars.len(),
            chars@ == src@,
            out@ == src@.subrange(first as int, k as int),
        decreases last - k,
    {
        out.push(chars[k]);
        assert(src@.subrange(first as int, k + 1) == src@.subrange(first as int, k as int).push(
            src@[k as int],
        ));
        k += 1;
    }
    Ok(out)
}

/// Generated code with the marker line for `hash` on top.
pub fn stamp(hash: &str, code: &str) -> (out: String)
    ensures
        out@ == stamped(hash@, code@),
{
    proof {
        lemma_prefix_is_marker();
        reveal_strlit(" ");
        reveal_strlit("\n");
        assert(" "@ =~= seq![' ']);
        assert("\n"@ =~= seq!['\n']);
    }
    let mut out = String::from_str(HASH_COMMAND_PREFIX);
    out.append(" ");
    out.append(hash);
    out.append("\n");
    out.append(code);
    out
}

/// The fingerprint of a list of schemas: that of their canonical text.
pub open spec fn hash_of(list: Seq<SchemaView>) -> Seq<char> {
    fingerprint_of(encode_schemas_of(list))
}

/// How generated code stands to a list of schemas: it records their
/// fingerprint, or another one, or none.
pub open spec fn validation_of(src: Seq<char>, list: Seq<SchemaView>) -> Result<
    (),
    ValidationError,
> {
    match hash_in(src) {
        None => Err(ValidationError::MissingHashMarker),
        Some(hash) => if hash == hash_of(list) {
            Ok(())
        } else {
            Err(ValidationError::HashMismatch)
        },
    }
}

/// Hash round trip: code that is stamped with the fingerprint of schemas
/// is valid for these schemas.
pub proof fn lemma_stamped_code_is_valid(list: Seq<SchemaView>, code: Seq<char>)
    ensures
        hash_in(stamped(hash_of(list), code)) == Some(hash_of(list)),
        validation_of(stamped(hash_of(list), code), list) == Ok::<(), ValidationError>(()),
{
    lemma_fingerprint_round_trip(encode_schemas_of(list), code);
}

/// The bytes that are hashed for a list of schemas: their canonical text
/// in UTF-8.
pub open spec fn hashed_bytes(list: Seq<SchemaView>) -> Seq<u8> {
    vstd::utf8::encode_utf8(encode_schemas_of(list))
}

/// A change of the schemas changes the bytes that are hashed, and with them
/// the fingerprint, unless the hash gives both sequences of bytes the same
/// number.
pub proof fn lemma_change_changes_hash(a: Seq<SchemaView>, b: Seq<SchemaView>)
    requires
        sized_schemas(a),
        sized_schemas(b),
        !same_schemas(a, b),
    ensures
        hashed_bytes(a) != hashed_bytes(b),
        xxh3_digest(hashed_bytes(a)) != xxh3_digest(hashed_bytes(b)) ==> hash_of(a) != hash_of(b),
{
    if hashed_bytes(a) == hashed_bytes(b) {
        vstd::utf8::encode_utf8_decode_utf8(encode_schemas_of(a));
        vstd::utf8::encode_utf8_decode_utf8(encode_schemas_of(b));
        lemma_canonical_text_tells_apart(a, b);
    }
    if hash_of(a) == hash_of(b) {
        lemma_hex16_injective(xxh3_digest(hashed_bytes(a)), xxh3_digest(hashed_bytes(b)));
    }
}

impl Schema {
    /// The fingerprint of a list of schemas: sixteen hexadecimal digits
    /// that depend on nothing but the declarations and their order.
    pub fn to_hash(schemas: &Vec<Schema>) -> (out: String)
        ensures
            out@ == hash_of(schema_views(schemas@)),
    {
        fingerprint(encode_schemas(schemas).as_str())
    }
}

/// Holds generated code against the schemas: the code must record their
/// fingerprint.
pub fn validate_schema(src: &str, schemas: &Vec<Schema>) -> (res: Result<(), ValidationError>)
    ensures
        res == validation_of(src@, schema_views(schemas@)),
{
    let recorded = match get_hash_from_src(src) {
        Ok(hash) => hash,
        Err(e) => {
            return Err(e);
        },
    };
    let current = Schema::to_hash(schemas);
    if recorded == current {
        Ok(())
    } else {
        Err(ValidationError::HashMismatch)
    }
}

} // verus!
