//! Bytes held in memory in self-encrypted form.

use crate::error::Error;
use crate::hexcode::option_bytes;
use crate::text::bytes_copy;
use crate::utils::{bytes_result, random_byte};
use self_encryption::bytes::Bytes;
use self_encryption::xor_name::XorName;
use self_encryption::{ChunkInfo, DataMap, EncryptedChunk};
use vstd::prelude::*;

verus! {

/// The least number of bytes that can be self-encrypted; shorter data is padded to it.
pub const MIN_ENCRYPT_BYTE_NUMS: usize = 3072;

/// What the data map of self-encrypted data records of one chunk.
#[derive(Debug)]
pub struct ChunkKey {
    pub index: usize,
    pub dst_hash: [u8; 32],
    pub src_hash: [u8; 32],
    pub src_size: usize,
}

/// One encrypted chunk of self-encrypted data.
#[derive(Debug)]
pub struct Chunk {
    pub index: usize,
    pub content: Vec<u8>,
}

/// What a `ChunkKey` holds.
pub struct ChunkKeyView {
    pub index: nat,
    pub dst_hash: Seq<u8>,
    pub src_hash: Seq<u8>,
    pub src_size: nat,
}

/// What a `Chunk` holds.
pub struct ChunkView {
    pub index: nat,
    pub content: Seq<u8>,
}

impl View for ChunkKey {
    type V = ChunkKeyView;

    open spec fn view(&self) -> ChunkKeyView {
        ChunkKeyView {
            index: self.index as nat,
            dst_hash: self.dst_hash@,
            src_hash: self.src_hash@,
            src_size: self.src_size as nat,
        }
    }
}

impl View for Chunk {
    type V = ChunkView;

    open spec fn view(&self) -> ChunkView {
        ChunkView { index: self.index as nat, content: self.content@ }
    }
}

/// What a data map holds.
pub open spec fn keys_view(keys: Seq<ChunkKey>) -> Seq<ChunkKeyView> {
    keys.map_values(|k: ChunkKey| k@)
}

/// What a list of chunks holds.
pub open spec fn chunks_view(chunks: Seq<Chunk>) -> Seq<ChunkView> {
    chunks.map_values(|c: Chunk| c@)
}

/// Whether no two chunks have the same index.
pub open spec fn distinct_indices(chunks: Seq<ChunkView>) -> bool {
    forall|i: int, j: int|
        0 <= i < j < chunks.len() ==> (#[trigger] chunks[i]).index != (#[trigger] chunks[j]).index
}

/// Whether decryption can take the map and the chunks: no two chunks have the same index,
/// and where there is a chunk at all, the map has two entries or more and every chunk's
/// index is below their number.
pub open spec fn fits(keys: Seq<ChunkKeyView>, chunks: Seq<ChunkView>) -> bool {
    &&& distinct_indices(chunks)
    &&& chunks.len() == 0 || (keys.len() >= 2 && forall|i: int|
        0 <= i < chunks.len() ==> (#[trigger] chunks[i]).index < keys.len())
}

/// What decrypting the chunks under the data map gives, where no two chunks have the same
/// index: the data, or `None` where the chunks do not decrypt under it.
pub uninterp spec fn self_decrypted(keys: Seq<ChunkKeyView>, chunks: Seq<ChunkView>) -> Option<
    Seq<u8>,
>;

/// `self_encryption::encrypt`, which takes data of 3072 bytes or more: the data map and the
/// encrypted chunks, from which `self_encryption::decrypt_full_set` gives the data back.
/// The map has three entries or more, every chunk's index is below their number, and no
/// two chunks have the same index: they are numbered from 0 on. The order in which the
/// chunks come is not fixed, so what is returned has no name of its own.
#[verifier::external_body]
fn self_encrypt(data: Vec<u8>) -> (res: Option<(Vec<ChunkKey>, Vec<Chunk>)>)
    ensures
        res is Some ==> data@.len() >= MIN_ENCRYPT_BYTE_NUMS,
        res matches Some((keys, chunks)) ==> {
            &&& keys@.len() >= 3
            &&& fits(keys_view(keys@), chunks_view(chunks@))
            &&& self_decrypted(keys_view(keys@), chunks_view(chunks@)) == Some(data@)
        },
{
    let (map, chunks) = self_encryption::encrypt(Bytes::from(data)).ok()?;
    let keys = map.infos().into_iter().map(|i| ChunkKey {
        index: i.index,
        dst_hash: i.dst_hash.0,
        src_hash: i.src_hash.0,
        src_size: i.src_size,
    }).collect();
    let chunks = chunks.into_iter().map(|c| Chunk { index: c.index, content: c.content.to_vec() });
    Some((keys, chunks.collect()))
}

/// `self_encryption::decrypt_full_set`: the data that the chunks hold under the data map,
/// or `None` where they do not decrypt. With a chunk whose index is not below the number of
/// the map's entries, or with a chunk and fewer than two entries, the call would panic.
/// The call decrypts the chunks on several threads and then orders them by index, so with
/// two chunks of one index what comes back would depend on which thread ends first.
#[verifier::external_body]
fn self_decrypt(keys: &Vec<ChunkKey>, chunks: &Vec<Chunk>) -> (res: Option<Vec<u8>>)
    requires
        fits(keys_view(keys@), chunks_view(chunks@)),
    ensures
        option_bytes(res) == self_decrypted(keys_view(keys@), chunks_view(chunks@)),
{
    let map = DataMap::new(keys.iter().map(|k| ChunkInfo {
        index: k.index,
        dst_hash: XorName(k.dst_hash),
        src_hash: XorName(k.src_hash),
        src_size: k.src_size,
    }).collect());
    let chunks: Vec<EncryptedChunk> = chunks.iter().map(|c| EncryptedChunk {
        index: c.index,
        content: Bytes::from(c.content.clone()),
    }).collect();
    self_encryption::decrypt_full_set(&map, &chunks).ok().map(|b| b.to_vec())
}

/// Bytes held in self-encrypted form: padded with random bytes to the least length that
/// can be encrypted, then encrypted.
#[derive(Debug)]
pub struct MemData {
    data_map: Vec<ChunkKey>,
    length: usize,
    encrypted_chunks: Vec<Chunk>,
}

/// What decrypting gives where the chunks decrypt to `plain`, of which the first `length`
/// bytes are the data: `CryptoError` where the chunks do not decrypt or give fewer bytes.
pub open spec fn trimmed(plain: Option<Seq<u8>>, length: nat) -> Result<Seq<u8>, Error> {
    match plain {
        Some(bytes) => if bytes.len() >= length {
            Ok(bytes.subrange(0, length as int))
        } else {
            Err(Error::CryptoError)
        },
        None => Err(Error::CryptoError),
    }
}

impl MemData {
    /// The number of bytes that are held.
    pub closed spec fn length(&self) -> nat {
        self.length as nat
    }

    /// The data map.
    pub closed spec fn keys(&self) -> Seq<ChunkKeyView> {
        keys_view(self.data_map@)
    }

    /// The encrypted chunks.
    pub closed spec fn chunks(&self) -> Seq<ChunkView> {
        chunks_view(self.encrypted_chunks@)
    }

    /// What `decrypt` gives: `CryptoError` where two chunks have the same index, map and
    /// chunks do not fit each other, or the chunks do not decrypt to as many bytes as are
    /// held; else the bytes that are held.
    pub open spec fn decrypted(&self) -> Result<Seq<u8>, Error> {
        if fits(self.keys(), self.chunks()) {
            trimmed(self_decrypted(self.keys(), self.chunks()), self.length())
        } else {
            Err(Error::CryptoError)
        }
    }

    /// Puts together what encryption gave for data of which the first `length` bytes are
    /// to be held: `CryptoError` where it gave nothing.
    pub fn assemble(length: usize, encrypted: Option<(Vec<ChunkKey>, Vec<Chunk>)>) -> (res: Result<
        MemData,
        Error,
    >)
        ensures
            match (encrypted, res) {
                (Some((keys, chunks)), Ok(mem)) => mem.length() == length && mem.keys()
                    == keys_view(keys@) && mem.chunks() == chunks_view(chunks@),
                (None, Err(e)) => e == Error::CryptoError,
                _ => false,
            },
    {
        match encrypted {
            Some((data_map, encrypted_chunks)) => Ok(
                MemData { data_map, length, encrypted_chunks },
            ),
            None => Err(Error::CryptoError),
        }
    }

    /// Holds `data` in self-encrypted form. Decrypting what is held gives `data` back.
    /// `CryptoError` where the encryption fails.
    pub fn new(data: Vec<u8>) -> (res: Result<MemData, Error>)
        ensures
            res matches Ok(mem) ==> mem.length() == data@.len() && mem.decrypted() == Ok::<
                Seq<u8>,
                Error,
            >(data@),
            res matches Err(e) ==> e == Error::CryptoError,
    {
        let mut data = data;
        let ghost given = data@;
        let length = data.len();
        let mut i: usize = length;
        while i < MIN_ENCRYPT_BYTE_NUMS
            invariant
                length == given.len(),
                length <= i,
                data@.len() == i,
                data@.subrange(0, length as int) == given,
            decreases MIN_ENCRYPT_BYTE_NUMS - i,
        {
            let x = random_byte();
            let ghost before = data@;
            data.push(x);
            assert(data@.subrange(0, length as int) =~= before.subrange(0, length as int));
            i = i + 1;
        }
        let encrypted = self_encrypt(data);
        MemData::assemble(length, encrypted)
    }

    /// The bytes that are held.
    pub fn decrypt(&self) -> (res: Result<Vec<u8>, Error>)
        ensures
            bytes_result(res) == self.decrypted(),
    {
        if self.encrypted_chunks.len() > 0 && self.data_map.len() < 2 {
            return Err(Error::CryptoError);
        }
        let mut k: usize = 0;
        while k < self.encrypted_chunks.len()
            invariant
                k <= self.encrypted_chunks@.len(),
                self.encrypted_chunks@.len() > 0 ==> self.keys().len() >= 2,
                forall|j: int|
                    0 <= j < k ==> (#[trigger] self.chunks()[j]).index < self.keys().len(),
                forall|i: int, j: int|
                    0 <= i < j < k ==> (#[trigger] self.chunks()[i]).index != (
                    #[trigger] self.chunks()[j]).index,
            decreases self.encrypted_chunks@.len() - k,
        {
            if self.encrypted_chunks[k].index >= self.data_map.len() {
                assert(self.chunks()[k as int].index >= self.keys().len());
                return Err(Error::CryptoError);
            }
            let mut j: usize = 0;
            while j < k
                invariant
                    j <= k < self.encrypted_chunks@.len(),
                    forall|i: int|
                        0 <= i < j ==> (#[trigger] self.chunks()[i]).index != self.chunks()[k
                            as int].index,
                decreases k - j,
            {
                if self.encrypted_chunks[j].index == self.encrypted_chunks[k].index {
                    assert(self.chunks()[j as int].index == self.chunks()[k as int].index);
                    return Err(Error::CryptoError);
                }
                j = j + 1;
            }
            k = k + 1;
        }
        let content = match self_decrypt(&self.data_map, &self.encrypted_chunks) {
            Some(content) => content,
            None => { return Err(Error::CryptoError); },
        };
        if content.len() < self.length {
            return Err(Error::CryptoError);
        }
        let mut r: Vec<u8> = Vec::new();
        let mut i: usize = 0;
        while i < self.length
            invariant
                i <= self.length <= content@.len(),
                r@ == content@.subrange(0, i as int),
            decreases self.length - i,
        {
            r.push(content[i]);
            assert(r@ =~= content@.subrange(0, i + 1));
            i = i + 1;
        }
        Ok(r)
    }
}

impl Clone for MemData {
    fn clone(&self) -> (res: Self)
        ensures
            res.length() == self.length(),
            res.keys() == self.keys(),
            res.chunks() == self.chunks(),
    {
        let mut data_map: Vec<ChunkKey> = Vec::new();
        let mut i: usize = 0;
        while i < self.data_map.len()
            invariant
                i <= self.data_map@.len(),
                keys_view(data_map@) == keys_view(self.data_map@).subrange(0, i as int),
            decreases self.data_map@.len() - i,
        {
            let item = &self.data_map[i];
            let key = ChunkKey {
                index: item.index,
                dst_hash: item.dst_hash,
                src_hash: item.src_hash,
                src_size: item.src_size,
            };
            let ghost before = data_map@;
            assert(key@ == self.data_map@[i as int]@);
            data_map.push(key);
            assert(keys_view(data_map@) =~= keys_view(before).push(key@));
            assert(keys_view(data_map@) =~= keys_view(self.data_map@).subrange(0, i + 1));
            i = i + 1;
        }
        let mut encrypted_chunks: Vec<Chunk> = Vec::new();
        let mut k: usize = 0;
        while k < self.encrypted_chunks.len()
            invariant
                k <= self.encrypted_chunks@.len(),
                chunks_view(encrypted_chunks@) == chunks_view(self.encrypted_chunks@).subrange(
                    0,
                    k as int,
                ),
            decreases self.encrypted_chunks@.len() - k,
        {
            let item = &self.encrypted_chunks[k];
            let chunk = Chunk { index: item.index, content: bytes_copy(item.content.as_slice()) };
            let ghost before = encrypted_chunks@;
            assert(chunk@ == self.encrypted_chunks@[k as int]@);
            encrypted_chunks.push(chunk);
            assert(chunks_view(encrypted_chunks@) =~= chunks_view(before).push(chunk@));
            assert(chunks_view(encrypted_chunks@) =~= chunks_view(
                self.encrypted_chunks@,
            ).subrange(0, k + 1));
            k = k + 1;
        }
        assert(keys_view(data_map@) =~= keys_view(self.data_map@));
        assert(chunks_view(encrypted_chunks@) =~= chunks_view(self.encrypted_chunks@));
        Self { data_map, length: self.length, encrypted_chunks }
    }
}

impl Default for MemData {
    fn default() -> (res: Self)
        ensures
            res.length() == 0,
            res.keys() == Seq::<ChunkKeyView>::empty(),
            res.chunks() == Seq::<ChunkView>::empty(),
    {
        let res = MemData { data_map: Vec::new(), length: 0, encrypted_chunks: Vec::new() };
        assert(res.keys() =~= Seq::<ChunkKeyView>::empty());
        assert(res.chunks() =~= Seq::<ChunkView>::empty());
        res
    }
}

} // verus!
