use vstd::prelude::*;

use openssl::error::ErrorStack;
use openssl::symm::{Cipher, Crypter, Mode};

use crate::reader::copy_range;

verus! {

/// openssl's `Crypter`, a cipher context, carried through as an opaque value.
#[verifier::external_type_specification]
#[verifier::external_body]
pub struct ExCrypter(Crypter);

/// openssl's `ErrorStack`, the error its cipher calls return, carried through as an opaque value.
#[verifier::external_type_specification]
#[verifier::external_body]
pub struct ExErrorStack(ErrorStack);

/// The block that AES-128 makes of the 16-byte `block` under the 16-byte `key`.
pub uninterp spec fn aes128_block(key: Seq<u8>, block: Seq<u8>) -> Seq<u8>;

/// The feedback register after the ciphertext `ct`: the last 16 bytes of the IV, which
/// is the key, followed by `ct`.
pub open spec fn cfb8_register(key: Seq<u8>, ct: Seq<u8>) -> Seq<u8> {
    let all = key + ct;
    all.subrange(all.len() - 16, all.len() as int)
}

/// The byte that is combined with the next byte after the ciphertext `ct`.
pub open spec fn cfb8_pad(key: Seq<u8>, ct: Seq<u8>) -> u8 {
    aes128_block(key, cfb8_register(key, ct))[0]
}

/// The ciphertext of a whole stream `p` in 8-bit cipher feedback mode.
pub open spec fn cfb8_encrypt_all(key: Seq<u8>, p: Seq<u8>) -> Seq<u8>
    decreases p.len(),
{
    if p.len() == 0 {
        seq![]
    } else {
        let c = cfb8_encrypt_all(key, p.drop_last());
        c.push(p.last() ^ cfb8_pad(key, c))
    }
}

/// The plaintext of a whole stream `c` in 8-bit cipher feedback mode.
pub open spec fn cfb8_decrypt_all(key: Seq<u8>, c: Seq<u8>) -> Seq<u8>
    decreases c.len(),
{
    if c.len() == 0 {
        seq![]
    } else {
        cfb8_decrypt_all(key, c.drop_last()).push(c.last() ^ cfb8_pad(key, c.drop_last()))
    }
}

/// The ciphertext that a cipher fed `fed` has seen: what it emitted when encrypting,
/// what it was fed when decrypting.
pub open spec fn cfb8_seen(key: Seq<u8>, encrypt: bool, fed: Seq<u8>) -> Seq<u8> {
    if encrypt {
        cfb8_encrypt_all(key, fed)
    } else {
        fed
    }
}

/// What AES-128-CFB8 with `key` as key and IV emits for `input`, after it was fed `fed`.
pub open spec fn aes128_cfb8(key: Seq<u8>, encrypt: bool, fed: Seq<u8>, input: Seq<u8>) -> Seq<
    u8,
> {
    let all = if encrypt {
        cfb8_encrypt_all(key, fed + input)
    } else {
        cfb8_decrypt_all(key, fed + input)
    };
    all.subrange(fed.len() as int, all.len() as int)
}

proof fn lemma_cfb8_len(key: Seq<u8>, s: Seq<u8>)
    ensures
        cfb8_encrypt_all(key, s).len() == s.len(),
        cfb8_decrypt_all(key, s).len() == s.len(),
    decreases s.len(),
{
    if s.len() > 0 {
        lemma_cfb8_len(key, s.drop_last());
    }
}

proof fn lemma_cfb8_prefix(key: Seq<u8>, p: Seq<u8>, x: Seq<u8>)
    ensures
        cfb8_encrypt_all(key, p + x).subrange(0, p.len() as int) == cfb8_encrypt_all(key, p),
        cfb8_decrypt_all(key, p + x).subrange(0, p.len() as int) == cfb8_decrypt_all(key, p),
    decreases x.len(),
{
    lemma_cfb8_len(key, p);
    lemma_cfb8_len(key, p + x);
    if x.len() == 0 {
        assert(p + x =~= p);
    } else {
        let x1 = x.drop_last();
        assert((p + x).drop_last() =~= p + x1);
        lemma_cfb8_prefix(key, p, x1);
        lemma_cfb8_len(key, p + x1);
        assert(cfb8_encrypt_all(key, p + x).subrange(0, p.len() as int) =~= cfb8_encrypt_all(
            key,
            p + x1,
        ).subrange(0, p.len() as int));
        assert(cfb8_decrypt_all(key, p + x).subrange(0, p.len() as int) =~= cfb8_decrypt_all(
            key,
            p + x1,
        ).subrange(0, p.len() as int));
    }
}

/// What a cipher emits for two chunks fed one after the other is what it emits for
/// the two as one chunk, wherever the chunks are split.
pub proof fn lemma_cfb8_chunks(key: Seq<u8>, encrypt: bool, fed: Seq<u8>, x: Seq<u8>, y: Seq<u8>)
    ensures
        aes128_cfb8(key, encrypt, fed, x) + aes128_cfb8(key, encrypt, fed + x, y) == aes128_cfb8(
            key,
            encrypt,
            fed,
            x + y,
        ),
{
    let all = fed + x + y;
    assert(fed + (x + y) =~= all);
    lemma_cfb8_prefix(key, fed + x, y);
    lemma_cfb8_len(key, all);
    lemma_cfb8_len(key, fed + x);
    if encrypt {
        let f = cfb8_encrypt_all(key, all);
        assert(cfb8_encrypt_all(key, fed + x) == f.subrange(0, (fed + x).len() as int));
        assert(aes128_cfb8(key, encrypt, fed, x) + aes128_cfb8(key, encrypt, fed + x, y)
            =~= f.subrange(fed.len() as int, f.len() as int));
    } else {
        let f = cfb8_decrypt_all(key, all);
        assert(cfb8_decrypt_all(key, fed + x) == f.subrange(0, (fed + x).len() as int));
        assert(aes128_cfb8(key, encrypt, fed, x) + aes128_cfb8(key, encrypt, fed + x, y)
            =~= f.subrange(fed.len() as int, f.len() as int));
    }
}

/// Decrypting a whole ciphertext with the key it was made with gives the plaintext back.
pub proof fn lemma_cfb8_inverse(key: Seq<u8>, p: Seq<u8>)
    ensures
        cfb8_decrypt_all(key, cfb8_encrypt_all(key, p)) == p,
    decreases p.len(),
{
    if p.len() > 0 {
        let p1 = p.drop_last();
        let c1 = cfb8_encrypt_all(key, p1);
        let c = cfb8_encrypt_all(key, p);
        lemma_cfb8_inverse(key, p1);
        assert(c.drop_last() =~= c1);
        let a = p.last();
        let k = cfb8_pad(key, c1);
        assert((a ^ k) ^ k == a) by (bit_vector);
        assert(cfb8_decrypt_all(key, c) =~= p);
    }
}

/// What an encrypting cipher emits for `plain` from its start, fed to a decrypting cipher
/// with the same key from its start, comes out as `plain`; by `lemma_cfb8_chunks`, the
/// same holds however either side splits the bytes into chunks.
pub proof fn lemma_cfb8_round_trip(key: Seq<u8>, plain: Seq<u8>)
    ensures
        aes128_cfb8(key, false, seq![], aes128_cfb8(key, true, seq![], plain)) == plain,
{
    let c = cfb8_encrypt_all(key, plain);
    lemma_cfb8_len(key, plain);
    lemma_cfb8_len(key, c);
    assert(seq![] + plain =~= plain);
    assert(aes128_cfb8(key, true, seq![], plain) =~= c);
    assert(seq![] + c =~= c);
    lemma_cfb8_inverse(key, plain);
    assert(aes128_cfb8(key, false, seq![], c) =~= plain);
}

/// An openssl cipher context, with the key, the direction and every byte fed to it so far.
pub struct Cfb8Cipher {
    ctx: Crypter,
    key: Ghost<Seq<u8>>,
    encrypt: Ghost<bool>,
    fed: Ghost<Seq<u8>>,
}

impl Cfb8Cipher {
    pub closed spec fn key(&self) -> Seq<u8> {
        self.key@
    }

    pub closed spec fn encrypting(&self) -> bool {
        self.encrypt@
    }

    /// Every byte fed to the context so far, in order.
    pub closed spec fn fed(&self) -> Seq<u8> {
        self.fed@
    }
}

/// Relies on openssl's `Crypter::new` with `Cipher::aes_128_cfb8()`: an AES-128 context in
/// 8-bit cipher feedback mode, keyed by `key` and with `key` as its IV. It may fail.
#[verifier::external_body]
fn cfb8_cipher(encrypt: bool, key: &[u8; 16]) -> (r: Result<Cfb8Cipher, ErrorStack>)
    ensures
        r is Ok ==> r->Ok_0.key() == key@ && r->Ok_0.encrypting() == encrypt && r->Ok_0.fed()
            == Seq::<u8>::empty(),
{
    let mode = if encrypt {
        Mode::Encrypt
    } else {
        Mode::Decrypt
    };
    let ctx = Crypter::new(Cipher::aes_128_cfb8(), mode, key, Some(key))?;
    Ok(Cfb8Cipher { ctx, key: Ghost(key@), encrypt: Ghost(encrypt), fed: Ghost(Seq::empty()) })
}

/// Relies on openssl's `Crypter::pad`, here to switch padding off; it feeds no bytes.
#[verifier::external_body]
fn disable_padding(c: &mut Cfb8Cipher)
    ensures
        final(c).key() == old(c).key(),
        final(c).encrypting() == old(c).encrypting(),
        final(c).fed() == old(c).fed(),
{
    c.ctx.pad(false)
}

/// Relies on openssl's `Crypter::update`: for an AES-128-CFB8 context it feeds `input`
/// through and writes exactly as many bytes at the start of `output`: the input combined
/// byte by byte with the first byte of AES-128 applied to the feedback register. It panics
/// where `output` is shorter than `input` and a block, or longer than `c_int::MAX`; no
/// cipher's block passes 32 bytes.
#[verifier::external_body]
fn cipher_update(c: &mut Cfb8Cipher, input: &[u8], output: &mut [u8]) -> (r: Result<
    usize,
    ErrorStack,
>)
    requires
        input@.len() + 32 <= old(output)@.len() <= i32::MAX,
    ensures
        final(output)@.len() == old(output)@.len(),
        final(c).key() == old(c).key(),
        final(c).encrypting() == old(c).encrypting(),
        r is Ok ==> r->Ok_0 == input@.len() && final(c).fed() == old(c).fed() + input@
            && final(output)@.subrange(0, input@.len() as int) == aes128_cfb8(
            old(c).key(),
            old(c).encrypting(),
            old(c).fed(),
            input@,
        ),
        r is Ok && input@.len() > 0 ==> final(output)@[0] == input@[0] ^ aes128_block(
            old(c).key(),
            cfb8_register(old(c).key(), cfb8_seen(old(c).key(), old(c).encrypting(), old(c).fed())),
        )[0],
{
    let n = c.ctx.update(input, output)?;
    c.fed = Ghost(c.fed@ + input@);
    Ok(n)
}

/// The reading half of an encrypted stream: what is read through it is decrypted.
pub struct CFB8ReadHalf<R> {
    pub read_half: R,
    decrypter: Cfb8Cipher,
}

/// The writing half of an encrypted stream: what is written through it is encrypted.
pub struct CFB8WriteHalf<W> {
    pub write_half: W,
    encrypter: Cfb8Cipher,
}

/// An encrypted duplex stream, as two halves that work apart.
pub struct CFB8Stream<R, W> {
    pub read_stream: CFB8ReadHalf<R>,
    pub write_stream: CFB8WriteHalf<W>,
}

impl<W> CFB8WriteHalf<W> {
    /// The transport that encrypted bytes are written to.
    pub closed spec fn inner(&self) -> W {
        self.write_half
    }

    /// The shared secret the encrypter was keyed with.
    pub closed spec fn key(&self) -> Seq<u8> {
        self.encrypter.key()
    }

    /// Every byte fed to the encrypter so far, in order.
    pub closed spec fn fed(&self) -> Seq<u8> {
        self.encrypter.fed()
    }

    /// The encrypter encrypts.
    pub closed spec fn wf(&self) -> bool {
        self.encrypter.encrypting()
    }

    pub fn new(write_half: W, key: &[u8; 16]) -> (r: Result<Self, ErrorStack>)
        ensures
            r is Ok ==> r->Ok_0.wf() && r->Ok_0.inner() == write_half && r->Ok_0.key() == key@
                && r->Ok_0.fed() == Seq::<u8>::empty(),
    {
        let encrypter = Self::get_encrypter(key)?;
        Ok(CFB8WriteHalf { write_half, encrypter })
    }

    fn get_encrypter(key: &[u8; 16]) -> (r: Result<Cfb8Cipher, ErrorStack>)
        ensures
            r is Ok ==> r->Ok_0.encrypting() && r->Ok_0.key() == key@ && r->Ok_0.fed()
                == Seq::<u8>::empty(),
    {
        let mut encrypter = cfb8_cipher(true, key)?;
        disable_padding(&mut encrypter);
        Ok(encrypter)
    }

    pub fn into_inner(self) -> (r: W)
        ensures
            r == self.inner(),
    {
        self.write_half
    }

    /// Encrypts `buf`, advancing the encrypter by exactly its bytes, and returns the
    /// bytes the cipher emitted for them.
    pub fn encrypt(&mut self, buf: &[u8]) -> (r: Result<Vec<u8>, ErrorStack>)
        requires
            old(self).wf(),
            buf@.len() + 32 <= i32::MAX,
        ensures
            final(self).wf(),
            final(self).inner() == old(self).inner(),
            final(self).key() == old(self).key(),
            r is Ok ==> final(self).fed() == old(self).fed() + buf@ && r->Ok_0@ == aes128_cfb8(
                old(self).key(),
                true,
                old(self).fed(),
                buf@,
            ),
    {
        let mut encrypted: Vec<u8> = vec![0u8; buf.len() + 32];
        let count = cipher_update(&mut self.encrypter, buf, encrypted.as_mut_slice())?;
        encrypted.truncate(count);
        Ok(encrypted)
    }
}

impl<R> CFB8ReadHalf<R> {
    /// The transport that encrypted bytes are read from.
    pub closed spec fn inner(&self) -> R {
        self.read_half
    }

    /// The shared secret the decrypter was keyed with.
    pub closed spec fn key(&self) -> Seq<u8> {
        self.decrypter.key()
    }

    /// Every byte fed to the decrypter so far, in order.
    pub closed spec fn fed(&self) -> Seq<u8> {
        self.decrypter.fed()
    }

    /// The decrypter decrypts.
    pub closed spec fn wf(&self) -> bool {
        !self.decrypter.encrypting()
    }

    pub fn new(read_half: R, key: &[u8; 16]) -> (r: Result<Self, ErrorStack>)
        ensures
            r is Ok ==> r->Ok_0.wf() && r->Ok_0.inner() == read_half && r->Ok_0.key() == key@
                && r->Ok_0.fed() == Seq::<u8>::empty(),
    {
        let decrypter = Self::get_decrypter(key)?;
        Ok(CFB8ReadHalf { read_half, decrypter })
    }

    fn get_decrypter(key: &[u8; 16]) -> (r: Result<Cfb8Cipher, ErrorStack>)
        ensures
            r is Ok ==> !r->Ok_0.encrypting() && r->Ok_0.key() == key@ && r->Ok_0.fed()
                == Seq::<u8>::empty(),
    {
        let mut decrypter = cfb8_cipher(false, key)?;
        disable_padding(&mut decrypter);
        Ok(decrypter)
    }

    pub fn into_inner(self) -> (r: R)
        ensures
            r == self.inner(),
    {
        self.read_half
    }

    /// Decrypts in place the bytes of `buf` from `pre_len` on, which a read has just
    /// filled: the decrypter advances by exactly those bytes, they become their
    /// decryption, and the bytes before `pre_len` are left as they were.
    pub fn decrypt_filled(&mut self, buf: &mut [u8], pre_len: usize) -> (r: Result<
        (),
        ErrorStack,
    >)
        requires
            old(self).wf(),
            pre_len <= old(buf)@.len(),
            old(buf)@.len() - pre_len + 32 <= i32::MAX,
        ensures
            final(self).wf(),
            final(self).inner() == old(self).inner(),
            final(self).key() == old(self).key(),
            final(buf)@.len() == old(buf)@.len(),
            final(buf)@.subrange(0, pre_len as int) == old(buf)@.subrange(0, pre_len as int),
            r is Ok ==> final(self).fed() == old(self).fed() + old(buf)@.subrange(
                pre_len as int,
                old(buf)@.len() as int,
            ) && final(buf)@.subrange(pre_len as int, old(buf)@.len() as int) == aes128_cfb8(
                old(self).key(),
                false,
                old(self).fed(),
                old(buf)@.subrange(pre_len as int, old(buf)@.len() as int),
            ),
            r is Err ==> final(buf)@ == old(buf)@,
    {
        let n = buf.len() - pre_len;
        let new_data = copy_range(buf, pre_len, buf.len());
        let mut output: Vec<u8> = vec![0u8; n + 32];
        cipher_update(&mut self.decrypter, new_data.as_slice(), output.as_mut_slice())?;
        let ghost plain = output@.subrange(0, n as int);
        let blen = buf.len();
        let mut i: usize = 0;
        while i < n
            invariant
                pre_len <= buf@.len(),
                buf@.len() == blen,
                n == buf@.len() - pre_len,
                n + 32 <= i32::MAX,
                output@.len() == n + 32,
                plain == output@.subrange(0, n as int),
                buf@.len() == old(buf)@.len(),
                i <= n,
                forall|j: int| 0 <= j < pre_len ==> #[trigger] buf@[j] == old(buf)@[j],
                forall|j: int| 0 <= j < i ==> #[trigger] buf@[pre_len + j] == plain[j],
            decreases n - i,
        {
            buf[pre_len + i] = output[i];
            i = i + 1;
        }
        assert(buf@.subrange(0, pre_len as int) =~= old(buf)@.subrange(0, pre_len as int));
        assert forall|j: int| 0 <= j < n implies #[trigger] buf@.subrange(
            pre_len as int,
            buf@.len() as int,
        )[j] == plain[j] by {
            assert(buf@[pre_len + j] == plain[j]);
        }
        assert(buf@.subrange(pre_len as int, buf@.len() as int) =~= plain);
        Ok(())
    }
}

impl<R, W> CFB8Stream<R, W> {
    /// Both halves, keyed by the same shared secret.
    pub fn new(read_half: R, write_half: W, key: &[u8; 16]) -> (r: Result<Self, ErrorStack>)
        ensures
            r is Ok ==> r->Ok_0.read_stream.wf() && r->Ok_0.write_stream.wf()
                && r->Ok_0.read_stream.key() == key@ && r->Ok_0.write_stream.key() == key@
                && r->Ok_0.read_stream.inner() == read_half
                && r->Ok_0.write_stream.inner() == write_half
                && r->Ok_0.read_stream.fed() == Seq::<u8>::empty()
                && r->Ok_0.write_stream.fed() == Seq::<u8>::empty(),
    {
        let read_stream = CFB8ReadHalf::new(read_half, key)?;
        let write_stream = CFB8WriteHalf::new(write_half, key)?;
        Ok(CFB8Stream { read_stream, write_stream })
    }

    pub fn split(self) -> (r: (CFB8ReadHalf<R>, CFB8WriteHalf<W>))
        ensures
            r.0 == self.read_stream,
            r.1 == self.write_stream,
    {
        (self.read_stream, self.write_stream)
    }

    pub fn split_inner(self) -> (r: (R, W))
        ensures
            r.0 == self.read_stream.inner(),
            r.1 == self.write_stream.inner(),
    {
        (self.read_stream.read_half, self.write_stream.write_half)
    }
}

} // verus!
