//! The string-list wire format: each text segment is followed by one NUL byte.
use vstd::prelude::*;
use vstd::utf8::*;

verus! {

/// The ways a string-list buffer can be malformed.
#[derive(Debug, Clone, Copy, PartialEq, Eq, Structural)]
pub enum DecodeError {
    /// The declared length is zero, so there is no terminator.
    Empty,
    /// The declared length runs past the end of the buffer.
    Truncated,
    /// The byte at `length - 1` is not NUL.
    Unterminated,
    /// A segment is not valid UTF-8.
    InvalidUtf8,
}

/// Each part followed by one NUL byte, in order.
pub open spec fn join_nul(parts: Seq<Seq<u8>>) -> Seq<u8>
    decreases parts.len(),
{
    if parts.len() == 0 {
        Seq::empty()
    } else {
        join_nul(parts.drop_last()) + parts.last() + seq![0u8]
    }
}

/// The maximal runs of non-NUL bytes of `b`, in order; `n` NUL bytes give `n + 1` runs.
pub open spec fn split_nul(b: Seq<u8>) -> Seq<Seq<u8>>
    decreases b.len(),
{
    if b.len() == 0 {
        seq![Seq::empty()]
    } else {
        let s = split_nul(b.drop_last());
        if b.last() == 0 {
            s.push(Seq::empty())
        } else {
            s.update(s.len() - 1, s.last().push(b.last()))
        }
    }
}

/// The wire form of a list of text segments.
pub open spec fn encoded(segs: Seq<Seq<char>>) -> Seq<u8> {
    join_nul(segs.map_values(|s: Seq<char>| encode_utf8(s)))
}

/// Whether the UTF-8 form of `s` holds no NUL byte.
pub open spec fn no_nul(s: Seq<char>) -> bool {
    forall|i: int| 0 <= i < encode_utf8(s).len() ==> encode_utf8(s)[i] != 0u8
}

/// What the first `length` bytes of `b` decode to.
pub open spec fn decoded(b: Seq<u8>, length: int) -> Result<Seq<Seq<char>>, DecodeError> {
    if length == 0 {
        Err(DecodeError::Empty)
    } else if length > b.len() {
        Err(DecodeError::Truncated)
    } else if b[length - 1] != 0 {
        Err(DecodeError::Unterminated)
    } else {
        let parts = split_nul(b.take(length - 1));
        if exists|i: int| 0 <= i < parts.len() && !valid_utf8(#[trigger] parts[i]) {
            Err(DecodeError::InvalidUtf8)
        } else {
            Ok(parts.map_values(|p: Seq<u8>| decode_utf8(p)))
        }
    }
}

/// Splitting always yields at least one segment.
pub proof fn lemma_split_nul_nonempty(b: Seq<u8>)
    ensures
        split_nul(b).len() >= 1,
    decreases b.len(),
{
    if b.len() > 0 {
        lemma_split_nul_nonempty(b.drop_last());
    }
}

/// Appending a run without NUL bytes extends the last segment by that run.
pub proof fn lemma_split_nul_append_run(x: Seq<u8>, y: Seq<u8>)
    requires
        forall|i: int| 0 <= i < y.len() ==> y[i] != 0u8,
    ensures
        split_nul(x + y) == split_nul(x).update(
            split_nul(x).len() - 1,
            split_nul(x).last() + y,
        ),
    decreases y.len(),
{
    lemma_split_nul_nonempty(x);
    let s = split_nul(x);
    if y.len() == 0 {
        assert(x + y =~= x);
        assert(s.update(s.len() - 1, s.last() + y) =~= s);
    } else {
        let y1 = y.drop_last();
        lemma_split_nul_append_run(x, y1);
        assert((x + y).drop_last() =~= x + y1);
        assert((x + y).last() == y.last());
        let s1 = split_nul(x + y1);
        assert(s1.last() == s.last() + y1);
        assert(s1.update(s1.len() - 1, s1.last().push(y.last())) =~= s.update(
            s.len() - 1,
            s.last() + y,
        )) by {
            assert(s1.len() == s.len());
            assert(s1.last().push(y.last()) =~= s.last() + y);
        }
    }
}

/// Splitting what `join_nul` built, less its final NUL, gives back the parts.
pub proof fn lemma_split_join(parts: Seq<Seq<u8>>)
    requires
        parts.len() >= 1,
        forall|i: int, j: int|
            0 <= i < parts.len() && 0 <= j < parts[i].len() ==> parts[i][j] != 0u8,
    ensures
        join_nul(parts).len() >= 1,
        join_nul(parts).last() == 0u8,
        split_nul(join_nul(parts).drop_last()) == parts,
    decreases parts.len(),
{
    let init = parts.drop_last();
    let last = parts.last();
    assert(join_nul(parts).drop_last() =~= join_nul(init) + last);
    assert forall|j: int| 0 <= j < last.len() implies last[j] != 0u8 by {
        assert(parts[parts.len() - 1][j] != 0u8);
    }
    lemma_split_nul_append_run(join_nul(init), last);
    if parts.len() == 1 {
        assert(join_nul(init) =~= Seq::<u8>::empty());
        assert(split_nul(join_nul(init)).update(0, split_nul(join_nul(init)).last() + last) =~= parts);
    } else {
        assert forall|i: int, j: int|
            0 <= i < init.len() && 0 <= j < init[i].len() implies init[i][j] != 0u8 by {
            assert(parts[i][j] != 0u8);
        }
        lemma_split_join(init);
        let jp = join_nul(init);
        assert(jp =~= jp.drop_last().push(0u8));
        assert(split_nul(jp) == init.push(Seq::empty()));
        assert(init.push(Seq::empty()).update(init.len() as int, Seq::<u8>::empty() + last) =~= parts);
    }
}

/// Round trip of the codec: a non-empty list of segments whose UTF-8 forms hold no
/// NUL byte decodes, at the full length of its wire form, back to the same list.
pub proof fn lemma_round_trip(segs: Seq<Seq<char>>)
    requires
        segs.len() >= 1,
        forall|i: int| 0 <= i < segs.len() ==> no_nul(#[trigger] segs[i]),
    ensures
        decoded(encoded(segs), encoded(segs).len() as int) == Ok::<Seq<Seq<char>>, DecodeError>(
            segs,
        ),
{
    broadcast use encode_utf8_valid_utf8, encode_utf8_decode_utf8;

    let parts = segs.map_values(|s: Seq<char>| encode_utf8(s));
    assert forall|i: int, j: int|
        0 <= i < parts.len() && 0 <= j < parts[i].len() implies parts[i][j] != 0u8 by {
        assert(no_nul(segs[i]));
    }
    lemma_split_join(parts);
    let b = encoded(segs);
    assert(b.take(b.len() - 1) =~= b.drop_last());
    let split = split_nul(b.take(b.len() - 1));
    assert(split == parts);
    assert(forall|i: int| 0 <= i < split.len() ==> valid_utf8(#[trigger] split[i]));
    assert(split.map_values(|p: Seq<u8>| decode_utf8(p)) =~= segs);
}

/// The text of each string slice.
pub open spec fn str_views(data: Seq<&str>) -> Seq<Seq<char>> {
    data.map_values(|s: &str| s@)
}

/// The bytes held by each vector.
pub open spec fn byte_views(parts: Seq<Vec<u8>>) -> Seq<Seq<u8>> {
    parts.map_values(|v: Vec<u8>| v@)
}

/// A decoding result, with each string seen as its text.
pub open spec fn strings_view(r: Result<Vec<String>, DecodeError>) -> Result<
    Seq<Seq<char>>,
    DecodeError,
> {
    match r {
        Ok(v) => Ok(v@.map_values(|s: String| s@)),
        Err(e) => Err(e),
    }
}

/// Relies on std::str::from_utf8: it accepts exactly the byte strings that are valid
/// UTF-8, and the string it hands back holds those same bytes.
#[verifier::external_body]
fn str_from_utf8(b: &[u8]) -> (r: Option<&str>)
    ensures
        r is Some <==> valid_utf8(b@),
        r matches Some(s) ==> encode_utf8(s@) == b@,
{
    std::str::from_utf8(b).ok()
}

/// Splits the first `length` bytes of `data` into text segments: the byte at
/// `length - 1` must be the list's final NUL, and the bytes before it are split
/// on NUL into segments, each of which must be UTF-8.
pub fn into(data: &[u8], length: u32) -> (r: Result<Vec<String>, DecodeError>)
    ensures
        strings_view(r) == decoded(data@, length as int),
{
    if length == 0 {
        return Err(DecodeError::Empty);
    }
    let n = length as usize;
    if n > data.len() {
        return Err(DecodeError::Truncated);
    }
    if data[n - 1] != 0 {
        return Err(DecodeError::Unterminated);
    }
    let payload = n - 1;
    let mut parts: Vec<Vec<u8>> = Vec::new();
    let mut cur: Vec<u8> = Vec::new();
    let mut i: usize = 0;
    proof {
        assert(data@.take(0) =~= Seq::<u8>::empty());
        assert(byte_views(parts@).push(cur@) =~= seq![Seq::<u8>::empty()]);
    }
    while i < payload
        invariant
            i <= payload,
            payload < data@.len(),
            byte_views(parts@).push(cur@) == split_nul(data@.take(i as int)),
        decreases payload - i,
    {
        let b = data[i];
        let ghost before = byte_views(parts@).push(cur@);
        proof {
            assert(data@.take(i + 1).drop_last() =~= data@.take(i as int));
            lemma_split_nul_nonempty(data@.take(i as int));
        }
        if b == 0 {
            parts.push(cur);
            cur = Vec::new();
            assert(byte_views(parts@).push(cur@) =~= before.push(Seq::empty()));
        } else {
            cur.push(b);
            assert(byte_views(parts@).push(cur@) =~= before.update(
                before.len() - 1,
                before.last().push(b),
            ));
        }
        i += 1;
    }
    parts.push(cur);
    assert(data@.take(payload as int) =~= data@.take(n - 1));
    let ghost split = byte_views(parts@);
    assert(split == split_nul(data@.take(n - 1)));
    let mut out: Vec<String> = Vec::new();
    let mut k: usize = 0;
    while k < parts.len()
        invariant
            k <= parts@.len(),
            split == byte_views(parts@),
            split == split_nul(data@.take(length as int - 1)),
            0 < length <= data@.len(),
            data@[length - 1] == 0,
            out@.map_values(|s: String| s@) == split.take(k as int).map_values(
                |p: Seq<u8>| decode_utf8(p),
            ),
            forall|j: int| 0 <= j < k ==> valid_utf8(#[trigger] split[j]),
        decreases parts@.len() - k,
    {
        match str_from_utf8(parts[k].as_slice()) {
            Some(s) => {
                proof {
                    encode_utf8_decode_utf8(s@);
                }
                let owned = s.to_owned();
                assert(owned@ == decode_utf8(split[k as int]));
                let ghost prev = out@;
                out.push(owned);
                assert(out@.map_values(|s: String| s@) =~= prev.map_values(|s: String| s@).push(
                    owned@,
                ));
                assert(split.take(k + 1).map_values(|p: Seq<u8>| decode_utf8(p)) =~= split.take(
                    k as int,
                ).map_values(|p: Seq<u8>| decode_utf8(p)).push(decode_utf8(split[k as int])));
                assert(out@.map_values(|s: String| s@) =~= split.take(k + 1).map_values(
                    |p: Seq<u8>| decode_utf8(p),
                ));
            },
            None => {
                assert(!valid_utf8(split_nul(data@.take(length as int - 1))[k as int]));
                return Err(DecodeError::InvalidUtf8);
            },
        }
        k += 1;
    }
    assert(split.take(k as int) =~= split);
    Ok(out)
}

/// Concatenates the segments, each followed by one NUL byte.
pub fn from(data: &[&str]) -> (r: Vec<u8>)
    ensures
        r@ == encoded(str_views(data@)),
{
    let mut result: Vec<u8> = Vec::new();
    let mut k: usize = 0;
    proof {
        assert(str_views(data@.take(0)).map_values(|s: Seq<char>| encode_utf8(s)) =~= Seq::empty());
    }
    while k < data.len()
        invariant
            k <= data@.len(),
            result@ == encoded(str_views(data@.take(k as int))),
        decreases data@.len() - k,
    {
        let bytes = data[k].as_bytes();
        let ghost start = result@;
        let mut j: usize = 0;
        while j < bytes.len()
            invariant
                j <= bytes@.len(),
                result@ == start + bytes@.take(j as int),
            decreases bytes@.len() - j,
        {
            result.push(bytes[j]);
            assert(start + bytes@.take(j + 1) =~= start + bytes@.take(j as int) + seq![bytes@[j as int]]);
            j += 1;
        }
        result.push(0u8);
        proof {
            let prev = str_views(data@.take(k as int)).map_values(|s: Seq<char>| encode_utf8(s));
            let next = str_views(data@.take(k + 1)).map_values(|s: Seq<char>| encode_utf8(s));
            assert(next.drop_last() =~= prev);
            assert(bytes@.take(j as int) =~= bytes@);
            assert(next.last() == encode_utf8(data@[k as int]@));
        }
        k += 1;
    }
    assert(data@.take(k as int) =~= data@);
    result
}

} // verus!
