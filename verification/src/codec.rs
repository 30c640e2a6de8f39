//! The bytes under which an asset record is kept.
//!
//! A record is laid out as a header of fixed size followed by its texts:
//!
//! ```text
//! identifier          8 bytes, little endian
//! owner length        1 byte, at most 29
//! owner               29 bytes, zero after the owner's own bytes
//! file size           8 bytes
//! price               8 bytes
//! for sale            1 byte, 0 or 1
//! has preview         1 byte, 0 or 1
//! created at          8 bytes
//! updated at          8 bytes
//! number of tags      8 bytes
//! texts               each: length in 8 bytes, then its UTF-8 bytes
//! ```
//!
//! The texts are the name, the description, the file hash, the file URL, the
//! file type and the category, then the tags, then the preview image URL if
//! there is one. Only the header changes when a record is updated, so an
//! update never changes the size of a record.

use crate::asset::{new_record, texts_view, Asset, AssetInput, AssetInputView, AssetView};
use crate::store::MAX_ENTRY_LEN;
use crate::principal::{Principal, MAX_PRINCIPAL_LEN};
use vstd::bytes::{
    lemma_auto_spec_u64_to_from_le_bytes, spec_u64_from_le_bytes, spec_u64_to_le_bytes,
    u64_from_le_bytes, u64_to_le_bytes,
};
use vstd::prelude::*;
use vstd::slice::{slice_subrange, slice_to_vec};
use vstd::utf8::{
    decode_utf8, decode_utf8_encode_utf8, encode_utf8, encode_utf8_decode_utf8,
    encode_utf8_valid_utf8, valid_utf8,
};

verus! {

/// The size of the header, the count of tags included.
pub const HEADER_LEN: usize = 80;

/// The number of texts that every record holds before its tags.
pub const FIXED_TEXTS: usize = 6;

/// A result of reading a value from the front of some bytes: the value and
/// the bytes that follow it.
pub type Taken<T> = Option<(T, Seq<u8>)>;

/// The bytes of one text: the length of its UTF-8 form, then that form.
pub open spec fn put_text(text: Seq<char>) -> Seq<u8> {
    spec_u64_to_le_bytes(encode_utf8(text).len() as u64) + encode_utf8(text)
}

/// Reads one text from the front of `bytes`.
pub open spec fn take_text(bytes: Seq<u8>) -> Taken<Seq<char>> {
    if bytes.len() < 8 {
        None
    } else {
        let len = spec_u64_from_le_bytes(bytes.subrange(0, 8));
        if bytes.len() - 8 < len || !valid_utf8(bytes.subrange(8, 8 + len)) {
            None
        } else {
            Some((decode_utf8(bytes.subrange(8, 8 + len)), bytes.skip(8 + len)))
        }
    }
}

/// The bytes of a list of texts, one after the other.
pub open spec fn put_texts(texts: Seq<Seq<char>>) -> Seq<u8>
    decreases texts.len(),
{
    if texts.len() == 0 {
        Seq::empty()
    } else {
        put_texts(texts.drop_last()) + put_text(texts.last())
    }
}

/// Reads `count` texts from the front of `bytes`.
pub open spec fn take_texts(bytes: Seq<u8>, count: nat) -> Taken<Seq<Seq<char>>>
    decreases count,
{
    if count == 0 {
        Some((Seq::empty(), bytes))
    } else {
        match take_text(bytes) {
            Some((first, rest)) => match take_texts(rest, (count - 1) as nat) {
                Some((others, rest)) => Some((seq![first] + others, rest)),
                None => None,
            },
            None => None,
        }
    }
}

/// Whether the length of the UTF-8 form of each text fits in eight bytes.
pub open spec fn texts_fit(texts: Seq<Seq<char>>) -> bool {
    forall|i: int| 0 <= i < texts.len() ==> encode_utf8(#[trigger] texts[i]).len() <= u64::MAX
}

/// A text that was written is read back, and what follows it is left.
pub proof fn lemma_take_put_text(text: Seq<char>, rest: Seq<u8>)
    requires
        encode_utf8(text).len() <= u64::MAX,
    ensures
        take_text(put_text(text) + rest) == Some((text, rest)),
{
    lemma_auto_spec_u64_to_from_le_bytes();
    encode_utf8_valid_utf8(text);
    encode_utf8_decode_utf8(text);
    let utf8 = encode_utf8(text);
    let len = utf8.len() as u64;
    let bytes = put_text(text) + rest;
    assert(bytes.subrange(0, 8) =~= spec_u64_to_le_bytes(len));
    assert(bytes.subrange(8, 8 + len) =~= utf8);
}

/// Bytes from which a text was read begin with the bytes of that text.
pub proof fn lemma_put_take_text(bytes: Seq<u8>)
    requires
        take_text(bytes) is Some,
    ensures
        bytes == put_text(take_text(bytes).unwrap().0) + take_text(bytes).unwrap().1,
        encode_utf8(take_text(bytes).unwrap().0).len() <= u64::MAX,
{
    lemma_auto_spec_u64_to_from_le_bytes();
    let len = spec_u64_from_le_bytes(bytes.subrange(0, 8));
    let utf8 = bytes.subrange(8, 8 + len);
    decode_utf8_encode_utf8(utf8);
}

/// The bytes of a list that begins with `first` begin with the bytes of
/// `first`.
pub proof fn lemma_put_texts_front(first: Seq<char>, others: Seq<Seq<char>>)
    ensures
        put_texts(seq![first] + others) == put_text(first) + put_texts(others),
    decreases others.len(),
{
    let all = seq![first] + others;
    if others.len() == 0 {
        assert(put_texts(all.drop_last()) =~= Seq::<u8>::empty());
    } else {
        lemma_put_texts_front(first, others.drop_last());
        assert(all.drop_last() =~= seq![first] + others.drop_last());
    }
}

/// A list of texts that was written is read back, and what follows it is
/// left.
pub proof fn lemma_take_put_texts(texts: Seq<Seq<char>>, rest: Seq<u8>)
    requires
        texts_fit(texts),
    ensures
        take_texts(put_texts(texts) + rest, texts.len()) == Some((texts, rest)),
    decreases texts.len(),
{
    if texts.len() > 0 {
        let first = texts[0];
        let others = texts.drop_first();
        assert(texts =~= seq![first] + others);
        lemma_put_texts_front(first, others);
        assert(put_texts(texts) + rest =~= put_text(first) + (put_texts(others) + rest));
        lemma_take_put_text(first, put_texts(others) + rest);
        lemma_take_put_texts(others, rest);
    }
}

/// Bytes from which a list of texts was read begin with the bytes of that
/// list.
pub proof fn lemma_put_take_texts(bytes: Seq<u8>, count: nat)
    requires
        take_texts(bytes, count) is Some,
    ensures
        take_texts(bytes, count).unwrap().0.len() == count,
        texts_fit(take_texts(bytes, count).unwrap().0),
        bytes == put_texts(take_texts(bytes, count).unwrap().0) + take_texts(
            bytes,
            count,
        ).unwrap().1,
    decreases count,
{
    if count > 0 {
        let (first, rest) = take_text(bytes).unwrap();
        let (others, end) = take_texts(rest, (count - 1) as nat).unwrap();
        lemma_put_take_text(bytes);
        lemma_put_take_texts(rest, (count - 1) as nat);
        lemma_put_texts_front(first, others);
    }
}

/// The byte that stands for a flag.
pub open spec fn put_flag(flag: bool) -> Seq<u8> {
    seq![if flag { 1u8 } else { 0u8 }]
}

/// The bytes of an owner: its length, its bytes, and zeros up to twenty-nine.
pub open spec fn put_owner(owner: Seq<u8>) -> Seq<u8> {
    seq![owner.len() as u8] + owner + Seq::new(
        (MAX_PRINCIPAL_LEN - owner.len()) as nat,
        |i: int| 0u8,
    )
}

/// The texts of a record, in the order in which they are written.
pub open spec fn texts_of(record: AssetView) -> Seq<Seq<char>> {
    seq![
        record.name,
        record.description,
        record.file_hash,
        record.file_url,
        record.file_type,
        record.category,
    ] + record.tags + (match record.preview_image_url {
        Some(url) => seq![url],
        None => Seq::empty(),
    })
}

/// The header of a record.
pub open spec fn put_header(record: AssetView) -> Seq<u8> {
    spec_u64_to_le_bytes(record.id) + put_owner(record.owner) + spec_u64_to_le_bytes(
        record.file_size,
    ) + spec_u64_to_le_bytes(record.price) + put_flag(record.is_for_sale) + put_flag(
        record.preview_image_url is Some,
    ) + spec_u64_to_le_bytes(record.created_at) + spec_u64_to_le_bytes(record.updated_at)
        + spec_u64_to_le_bytes(record.tags.len() as u64)
}

/// Whether a record can be written: its owner is an identity, and the
/// lengths that are written fit in eight bytes each.
pub open spec fn encodable(record: AssetView) -> bool {
    &&& record.owner.len() <= MAX_PRINCIPAL_LEN
    &&& record.tags.len() <= u64::MAX
    &&& texts_fit(texts_of(record))
}

/// The bytes under which a record is kept.
pub open spec fn encode_record(record: AssetView) -> Seq<u8> {
    put_header(record) + put_texts(texts_of(record))
}

/// Whether the bytes that follow the owner in a header are zero.
pub open spec fn owner_is_padded(bytes: Seq<u8>) -> bool {
    forall|i: int| 9 + bytes[8] <= i < 38 ==> #[trigger] bytes[i] == 0
}

/// The record that is kept under the given bytes, if they are the bytes of
/// one.
pub open spec fn decode_record(bytes: Seq<u8>) -> Option<AssetView> {
    if bytes.len() < HEADER_LEN || bytes[8] > MAX_PRINCIPAL_LEN || bytes[54] > 1 || bytes[55] > 1
        || !owner_is_padded(bytes) {
        None
    } else {
        let tags = spec_u64_from_le_bytes(bytes.subrange(72, 80)) as int;
        let extra = bytes[55] as int;
        match take_texts(bytes.skip(HEADER_LEN as int), (FIXED_TEXTS + tags + extra) as nat) {
            Some((texts, rest)) => if rest.len() == 0 {
                Some(
                    AssetView {
                        id: spec_u64_from_le_bytes(bytes.subrange(0, 8)),
                        name: texts[0],
                        description: texts[1],
                        owner: bytes.subrange(9, 9 + bytes[8]),
                        file_hash: texts[2],
                        file_url: texts[3],
                        file_type: texts[4],
                        file_size: spec_u64_from_le_bytes(bytes.subrange(38, 46)),
                        price: spec_u64_from_le_bytes(bytes.subrange(46, 54)),
                        is_for_sale: bytes[54] == 1,
                        created_at: spec_u64_from_le_bytes(bytes.subrange(56, 64)),
                        updated_at: spec_u64_from_le_bytes(bytes.subrange(64, 72)),
                        category: texts[5],
                        tags: texts.subrange(FIXED_TEXTS as int, FIXED_TEXTS + tags),
                        preview_image_url: if extra == 1 {
                            Some(texts[FIXED_TEXTS + tags])
                        } else {
                            None
                        },
                    },
                )
            } else {
                None
            },
            None => None,
        }
    }
}

/// The header is eighty bytes long, whatever the record.
pub proof fn lemma_header_len(record: AssetView)
    requires
        record.owner.len() <= MAX_PRINCIPAL_LEN,
    ensures
        put_header(record).len() == HEADER_LEN,
        encode_record(record).len() == HEADER_LEN + put_texts(texts_of(record)).len(),
{
    lemma_auto_spec_u64_to_from_le_bytes();
}

/// A record that was written is read back.
pub proof fn lemma_decode_encode(record: AssetView)
    requires
        encodable(record),
    ensures
        decode_record(encode_record(record)) == Some(record),
{
    lemma_auto_spec_u64_to_from_le_bytes();
    lemma_header_len(record);
    let texts = texts_of(record);
    let bytes = encode_record(record);
    let tags = record.tags.len() as u64;
    assert(bytes.subrange(0, 8) =~= spec_u64_to_le_bytes(record.id));
    assert(bytes.subrange(38, 46) =~= spec_u64_to_le_bytes(record.file_size));
    assert(bytes.subrange(46, 54) =~= spec_u64_to_le_bytes(record.price));
    assert(bytes.subrange(56, 64) =~= spec_u64_to_le_bytes(record.created_at));
    assert(bytes.subrange(64, 72) =~= spec_u64_to_le_bytes(record.updated_at));
    assert(bytes.subrange(72, 80) =~= spec_u64_to_le_bytes(tags));
    assert(bytes.skip(HEADER_LEN as int) =~= put_texts(texts) + Seq::<u8>::empty());
    lemma_take_put_texts(texts, Seq::empty());
    let decoded = decode_record(bytes).unwrap();
    assert(decoded.tags == record.tags);
    assert(decoded.owner == record.owner);
}

/// Bytes that are read as a record are the bytes under which that record is
/// kept.
pub proof fn lemma_encode_decode(bytes: Seq<u8>)
    requires
        decode_record(bytes) is Some,
    ensures
        encodable(decode_record(bytes).unwrap()),
        encode_record(decode_record(bytes).unwrap()) == bytes,
{
    lemma_auto_spec_u64_to_from_le_bytes();
    let record = decode_record(bytes).unwrap();
    let tags = spec_u64_from_le_bytes(bytes.subrange(72, 80)) as int;
    let extra = bytes[55] as int;
    let count = (FIXED_TEXTS + tags + extra) as nat;
    let body = bytes.skip(HEADER_LEN as int);
    let (texts, rest) = take_texts(body, count).unwrap();
    lemma_put_take_texts(body, count);
    assert(texts_of(record) =~= texts);
    lemma_header_len(record);
    assert(put_flag(record.preview_image_url is Some) =~= bytes.subrange(55, 56));
}

/// `String::from_utf8`: the string whose UTF-8 form the bytes are, or `None`
/// if they are not valid UTF-8.
#[verifier::external_body]
fn text_from_utf8(bytes: Vec<u8>) -> (r: Option<String>)
    ensures
        r is Some <==> valid_utf8(bytes@),
        r matches Some(text) ==> text@ == decode_utf8(bytes@),
{
    String::from_utf8(bytes).ok()
}

/// The bytes of a list with one more text at its end.
proof fn lemma_put_texts_push(texts: Seq<Seq<char>>, last: Seq<char>)
    ensures
        put_texts(texts.push(last)) == put_texts(texts) + put_text(last),
{
    assert(texts.push(last).drop_last() =~= texts);
}

/// What was read so far, followed by what a further reading gives.
spec fn extend(read: Seq<Seq<char>>, further: Taken<Seq<Seq<char>>>) -> Taken<Seq<Seq<char>>> {
    match further {
        Some((texts, rest)) => Some((read + texts, rest)),
        None => None,
    }
}

/// Reading a number of texts is reading some of them and then the others.
proof fn lemma_take_texts_split(bytes: Seq<u8>, some: nat, others: nat)
    ensures
        take_texts(bytes, some + others) == (match take_texts(bytes, some) {
            Some((read, rest)) => extend(read, take_texts(rest, others)),
            None => None,
        }),
    decreases some,
{
    if some > 0 {
        match take_text(bytes) {
            Some((first, after)) => {
                lemma_take_texts_split(after, (some - 1) as nat, others);
            },
            None => {},
        }
    }
}

fn write_u64(out: &mut Vec<u8>, value: u64)
    ensures
        final(out)@ == old(out)@ + spec_u64_to_le_bytes(value),
{
    let mut bytes = u64_to_le_bytes(value);
    out.append(&mut bytes);
}

fn write_slice(out: &mut Vec<u8>, bytes: &[u8])
    ensures
        final(out)@ == old(out)@ + bytes@,
{
    let mut i: usize = 0;
    while i < bytes.len()
        invariant
            i <= bytes@.len(),
            out@ == old(out)@ + bytes@.subrange(0, i as int),
        decreases bytes@.len() - i,
    {
        out.push(bytes[i]);
        i += 1;
    }
}

fn write_text(out: &mut Vec<u8>, text: &String)
    ensures
        final(out)@ == old(out)@ + put_text(text@),
        encode_utf8(text@).len() <= u64::MAX,
{
    let utf8 = text.as_str().as_bytes();
    write_u64(out, utf8.len() as u64);
    write_slice(out, utf8);
}

/// Writes a record as the bytes under which it is kept.
pub fn encode(asset: &Asset) -> (out: Vec<u8>)
    ensures
        encodable(asset@),
        out@ == encode_record(asset@),
{
    let mut out: Vec<u8> = Vec::new();
    write_u64(&mut out, asset.id);
    let owner = asset.owner.as_slice();
    out.push(owner.len() as u8);
    write_slice(&mut out, owner);
    let ghost unpadded = out@;
    let mut i: usize = owner.len();
    while i < MAX_PRINCIPAL_LEN
        invariant
            owner@.len() <= i <= MAX_PRINCIPAL_LEN,
            out@ == unpadded + Seq::new((i - owner@.len()) as nat, |k: int| 0u8),
        decreases MAX_PRINCIPAL_LEN - i,
    {
        out.push(0);
        i += 1;
    }
    write_u64(&mut out, asset.file_size);
    write_u64(&mut out, asset.price);
    out.push(if asset.is_for_sale { 1 } else { 0 });
    out.push(if asset.preview_image_url.is_some() { 1 } else { 0 });
    write_u64(&mut out, asset.created_at);
    write_u64(&mut out, asset.updated_at);
    write_u64(&mut out, asset.tags.len() as u64);
    let ghost header = put_header(asset@);
    let ghost mut written: Seq<Seq<char>> = Seq::empty();
    write_text(&mut out, &asset.name);
    proof {
        lemma_put_texts_push(written, asset.name@);
        written = written.push(asset.name@);
    }
    write_text(&mut out, &asset.description);
    proof {
        lemma_put_texts_push(written, asset.description@);
        written = written.push(asset.description@);
    }
    write_text(&mut out, &asset.file_hash);
    proof {
        lemma_put_texts_push(written, asset.file_hash@);
        written = written.push(asset.file_hash@);
    }
    write_text(&mut out, &asset.file_url);
    proof {
        lemma_put_texts_push(written, asset.file_url@);
        written = written.push(asset.file_url@);
    }
    write_text(&mut out, &asset.file_type);
    proof {
        lemma_put_texts_push(written, asset.file_type@);
        written = written.push(asset.file_type@);
    }
    write_text(&mut out, &asset.category);
    proof {
        lemma_put_texts_push(written, asset.category@);
        written = written.push(asset.category@);
    }
    let ghost fixed = written;
    let mut t: usize = 0;
    while t < asset.tags.len()
        invariant
            t <= asset.tags@.len(),
            out@ == header + put_texts(written),
            written == fixed + texts_view(asset.tags@).subrange(0, t as int),
            texts_fit(written),
        decreases asset.tags@.len() - t,
    {
        write_text(&mut out, &asset.tags[t]);
        proof {
            let tag = asset.tags@[t as int]@;
            lemma_put_texts_push(written, tag);
            written = written.push(tag);
        }
        t += 1;
    }
    match &asset.preview_image_url {
        Some(url) => {
            write_text(&mut out, url);
            proof {
                lemma_put_texts_push(written, url@);
                written = written.push(url@);
            }
        },
        None => {},
    }
    assert(written =~= texts_of(asset@));
    out
}

fn read_text(bytes: &[u8], pos: usize) -> (r: Option<(String, usize)>)
    requires
        pos <= bytes@.len(),
    ensures
        match take_text(bytes@.skip(pos as int)) {
            Some((text, rest)) => r matches Some((read, next)) && read@ == text && pos <= next
                <= bytes@.len() && rest == bytes@.skip(next as int),
            None => r is None,
        },
{
    let remaining = bytes.len() - pos;
    if remaining < 8 {
        return None;
    }
    let len = u64_from_le_bytes(slice_subrange(bytes, pos, pos + 8));
    assert(bytes@.skip(pos as int).subrange(0, 8) =~= bytes@.subrange(pos as int, pos + 8));
    if ((remaining - 8) as u64) < len {
        return None;
    }
    let start = pos + 8;
    let end = start + len as usize;
    let raw = slice_to_vec(slice_subrange(bytes, start, end));
    assert(bytes@.skip(pos as int).subrange(8, 8 + len) =~= raw@);
    match text_from_utf8(raw) {
        Some(text) => Some((text, end)),
        None => None,
    }
}

fn read_texts(bytes: &[u8], pos: usize, count: u64, list: &mut Vec<String>) -> (r: Option<usize>)
    requires
        pos <= bytes@.len(),
    ensures
        match take_texts(bytes@.skip(pos as int), count as nat) {
            Some((texts, rest)) => r matches Some(next) && pos <= next <= bytes@.len() && rest
                == bytes@.skip(next as int) && texts_view(final(list)@) == texts_view(old(list)@)
                + texts,
            None => r is None,
        },
{
    let ghost all = take_texts(bytes@.skip(pos as int), count as nat);
    let ghost mut read: Seq<Seq<char>> = Seq::empty();
    let mut at: usize = pos;
    let mut done: u64 = 0;
    while done < count
        invariant
            done <= count,
            pos <= at <= bytes@.len(),
            all == take_texts(bytes@.skip(pos as int), count as nat),
            all == extend(read, take_texts(bytes@.skip(at as int), (count - done) as nat)),
            texts_view(list@) == texts_view(old(list)@) + read,
        decreases count - done,
    {
        match read_text(bytes, at) {
            Some((text, next)) => {
                proof {
                    assert(texts_view(list@).push(text@) =~= texts_view(old(list)@) + read.push(
                        text@,
                    ));
                    read = read.push(text@);
                }
                list.push(text);
                at = next;
                done += 1;
            },
            None => {
                return None;
            },
        }
    }
    Some(at)
}

/// Reads a record from the bytes under which it is kept. Bytes that are not
/// the bytes of a record give `None`.
pub fn decode(bytes: &[u8]) -> (r: Option<Asset>)
    ensures
        r is Some <==> decode_record(bytes@) is Some,
        r matches Some(asset) ==> decode_record(bytes@) == Some(asset@),
{
    if bytes.len() < HEADER_LEN {
        return None;
    }
    let owner_len = bytes[8] as usize;
    if owner_len > MAX_PRINCIPAL_LEN || bytes[54] > 1 || bytes[55] > 1 {
        return None;
    }
    let mut i: usize = 9 + owner_len;
    while i < 38
        invariant
            9 + owner_len <= i <= 38,
            bytes@.len() >= HEADER_LEN,
            owner_len == bytes@[8],
            forall|k: int| 9 + owner_len <= k < i ==> #[trigger] bytes@[k] == 0,
        decreases 38 - i,
    {
        if bytes[i] != 0 {
            return None;
        }
        i += 1;
    }
    let owner = match Principal::from_slice(slice_subrange(bytes, 9, 9 + owner_len)) {
        Some(owner) => owner,
        None => {
            return None;
        },
    };
    let id = u64_from_le_bytes(slice_subrange(bytes, 0, 8));
    let file_size = u64_from_le_bytes(slice_subrange(bytes, 38, 46));
    let price = u64_from_le_bytes(slice_subrange(bytes, 46, 54));
    let is_for_sale = bytes[54] == 1;
    let has_preview = bytes[55] == 1;
    let created_at = u64_from_le_bytes(slice_subrange(bytes, 56, 64));
    let updated_at = u64_from_le_bytes(slice_subrange(bytes, 64, 72));
    let tag_count = u64_from_le_bytes(slice_subrange(bytes, 72, 80));
    let ghost body = bytes@.skip(HEADER_LEN as int);
    let ghost extra: nat = if has_preview { 1 } else { 0 };
    proof {
        lemma_take_texts_split(body, FIXED_TEXTS as nat, tag_count as nat + extra);
    }
    let mut list: Vec<String> = Vec::new();
    let after_fixed = match read_texts(bytes, HEADER_LEN, FIXED_TEXTS as u64, &mut list) {
        Some(next) => next,
        None => {
            return None;
        },
    };
    proof {
        lemma_take_texts_split(bytes@.skip(after_fixed as int), tag_count as nat, extra);
    }
    let after_tags = match read_texts(bytes, after_fixed, tag_count, &mut list) {
        Some(next) => next,
        None => {
            return None;
        },
    };
    let end = match read_texts(bytes, after_tags, if has_preview { 1 } else { 0 }, &mut list) {
        Some(next) => next,
        None => {
            return None;
        },
    };
    let ghost texts = texts_view(list@);
    assert(take_texts(body, (FIXED_TEXTS + tag_count + extra) as nat) == Some(
        (texts, bytes@.skip(end as int)),
    ));
    if end != bytes.len() {
        return None;
    }
    proof {
        lemma_put_take_texts(body, (FIXED_TEXTS + tag_count + extra) as nat);
    }
    let preview_image_url = if has_preview { list.pop() } else { None };
    let tags = list.split_off(FIXED_TEXTS);
    let category = list.pop();
    let file_type = list.pop();
    let file_url = list.pop();
    let file_hash = list.pop();
    let description = list.pop();
    let name = list.pop();
    match (name, description, file_hash, file_url, file_type, category) {
        (
            Some(name),
            Some(description),
            Some(file_hash),
            Some(file_url),
            Some(file_type),
            Some(category),
        ) => {
            let asset = Asset {
                id,
                name,
                description,
                owner,
                file_hash,
                file_url,
                file_type,
                file_size,
                price,
                is_for_sale,
                created_at,
                updated_at,
                category,
                tags,
                preview_image_url,
            };
            proof {
                assert(texts_view(asset.tags@) =~= texts.subrange(
                    FIXED_TEXTS as int,
                    FIXED_TEXTS + tag_count,
                ));
            }
            Some(asset)
        },
        _ => None,
    }
}

/// The texts of the record that is made of `input`.
pub open spec fn input_texts(input: AssetInputView) -> Seq<Seq<char>> {
    texts_of(new_record(0, input, Seq::empty(), 0))
}

/// The number of bytes under which a record with the given texts is kept.
pub open spec fn record_len(texts: Seq<Seq<char>>) -> nat {
    HEADER_LEN as nat + put_texts(texts).len()
}

/// A list of texts takes at least as many bytes as a part of it from its
/// start.
pub proof fn lemma_put_texts_grows(texts: Seq<Seq<char>>, upto: int)
    requires
        0 <= upto <= texts.len(),
    ensures
        put_texts(texts.subrange(0, upto)).len() <= put_texts(texts).len(),
    decreases texts.len() - upto,
{
    if upto < texts.len() {
        lemma_put_texts_grows(texts, upto + 1);
        assert(texts.subrange(0, upto + 1).drop_last() =~= texts.subrange(0, upto));
    } else {
        assert(texts.subrange(0, upto) =~= texts);
    }
}

/// The size of the record, once the text is added to what was counted, or
/// `None` if that is more than a region keeps intact.
fn count_text(counted: usize, text: &String, Ghost(seen): Ghost<Seq<Seq<char>>>) -> (r: Option<
    usize,
>)
    requires
        counted == record_len(seen),
        counted <= MAX_ENTRY_LEN,
    ensures
        r is Some <==> record_len(seen.push(text@)) <= MAX_ENTRY_LEN,
        r matches Some(size) ==> size == record_len(seen.push(text@)),
{
    proof {
        lemma_auto_spec_u64_to_from_le_bytes();
        lemma_put_texts_push(seen, text@);
    }
    let len = text.as_str().as_bytes().len();
    if MAX_ENTRY_LEN - counted < 8 || MAX_ENTRY_LEN - counted - 8 < len {
        None
    } else {
        Some(counted + 8 + len)
    }
}

/// Whether the record that is made of `input` is no larger than a region
/// keeps intact.
pub fn record_fits(input: &AssetInput) -> (r: bool)
    ensures
        r == (record_len(input_texts(input@)) <= MAX_ENTRY_LEN),
{
    let ghost all = input_texts(input@);
    let ghost mut seen: Seq<Seq<char>> = Seq::empty();
    let mut counted: usize = HEADER_LEN;
    let fixed = [
        &input.name,
        &input.description,
        &input.file_hash,
        &input.file_url,
        &input.file_type,
        &input.category,
    ];
    let mut i: usize = 0;
    while i < 6
        invariant
            i <= 6,
            fixed@.len() == 6,
            forall|k: int| 0 <= k < 6 ==> (#[trigger] fixed@[k])@ == all[k],
            all == input_texts(input@),
            seen == all.subrange(0, i as int),
            counted == record_len(seen),
            counted <= MAX_ENTRY_LEN,
        decreases 6 - i,
    {
        proof {
            assert(seen.push(fixed@[i as int]@) =~= all.subrange(0, i + 1));
            lemma_put_texts_grows(all, i + 1);
        }
        match count_text(counted, fixed[i], Ghost(seen)) {
            Some(size) => {
                counted = size;
            },
            None => {
                return false;
            },
        }
        proof {
            seen = all.subrange(0, i + 1);
        }
        i += 1;
    }
    let mut t: usize = 0;
    while t < input.tags.len()
        invariant
            t <= input.tags@.len(),
            all == input_texts(input@),
            seen == all.subrange(0, 6 + t),
            counted == record_len(seen),
            counted <= MAX_ENTRY_LEN,
        decreases input.tags@.len() - t,
    {
        proof {
            assert(seen.push(input.tags@[t as int]@) =~= all.subrange(0, 6 + t + 1));
            lemma_put_texts_grows(all, 6 + t + 1);
        }
        match count_text(counted, &input.tags[t], Ghost(seen)) {
            Some(size) => {
                counted = size;
            },
            None => {
                return false;
            },
        }
        proof {
            seen = all.subrange(0, 6 + t + 1);
        }
        t += 1;
    }
    match &input.preview_image_url {
        Some(url) => {
            proof {
                assert(seen.push(url@) =~= all);
            }
            count_text(counted, url, Ghost(seen)).is_some()
        },
        None => {
            assert(seen =~= all);
            true
        },
    }
}

} // verus!
