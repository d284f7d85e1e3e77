//! The computing part of the file encryptor: xor-ing buffers and planning
//! how a file is read and written back in buffer-sized chunks.
use vstd::prelude::*;

verus! {

/// Whether `after` is `before` with every byte xor-ed with `key`.
pub open spec fn xored_with(before: Seq<u8>, after: Seq<u8>, key: u8) -> bool {
    &&& after.len() == before.len()
    &&& forall|i: int| 0 <= i < before.len() ==> #[trigger] after[i] == (before[i] ^ key)
}

/// Xor each byte in the buffer with the given key.
pub fn xor_buffer(buffer: &mut [u8], key: u8)
    ensures
        xored_with(old(buffer)@, final(buffer)@, key),
{
    let len = buffer.len();
    let mut i: usize = 0;
    while i < len
        invariant
            len == buffer@.len(),
            len == old(buffer)@.len(),
            0 <= i <= len,
            forall|j: int| 0 <= j < i ==> #[trigger] buffer@[j] == (old(buffer)@[j] ^ key),
            forall|j: int| i <= j < len ==> #[trigger] buffer@[j] == old(buffer)@[j],
        decreases len - i,
    {
        let b = buffer[i];
        buffer[i] = b ^ key;
        i = i + 1;
    }
}

/// Xor-ing with the same key twice gives the buffer back: encrypting a file
/// twice with the same key restores it.
pub proof fn lemma_xor_twice_restores(plain: Seq<u8>, once: Seq<u8>, twice: Seq<u8>, key: u8)
    requires
        xored_with(plain, once, key),
        xored_with(once, twice, key),
    ensures
        twice == plain,
{
    assert forall|i: int| 0 <= i < plain.len() implies twice[i] == plain[i] by {
        let b = plain[i];
        assert(once[i] == b ^ key);
        assert((b ^ key) ^ key == b) by (bit_vector);
    }
    assert(twice =~= plain);
}

/// One read-xor-write step of the encryptor: `len` bytes at byte `offset`.
pub struct Chunk {
    pub offset: u64,
    pub len: usize,
}

/// Number of whole buffers that fit in a file of `file_len` bytes.
pub open spec fn full_chunks(file_len: nat, buf_size: nat) -> nat
    recommends
        buf_size > 0,
{
    file_len / buf_size
}

/// The size of the last, partial chunk (zero when there is none).
pub open spec fn tail_len(file_len: nat, buf_size: nat) -> nat
    recommends
        buf_size > 0,
{
    file_len % buf_size
}

/// The chunks in which a file of `file_len` bytes is processed with a buffer of
/// `buf_size` bytes: every whole buffer in file order, then the remainder, if any.
pub open spec fn spec_chunk_plan(file_len: nat, buf_size: nat) -> Seq<(nat, nat)>
    recommends
        buf_size > 0,
{
    let full = full_chunks(file_len, buf_size);
    let whole = Seq::new(full, |i: int| ((i * buf_size) as nat, buf_size));
    if tail_len(file_len, buf_size) > 0 {
        whole.push(((full * buf_size) as nat, tail_len(file_len, buf_size)))
    } else {
        whole
    }
}

/// The view of a chunk as a pair (offset, length).
pub open spec fn chunk_view(c: Chunk) -> (nat, nat) {
    (c.offset as nat, c.len as nat)
}

proof fn lemma_mul_le(i: nat, full: nat, b: nat)
    requires
        i <= full,
    ensures
        i * b <= full * b,
{
    assert(i * b <= full * b) by (nonlinear_arith)
        requires
            i <= full,
    ;
}

/// Plans the reads and writes of a file of `file_len` bytes through a buffer
/// of `buf_size` bytes, in the order the encryptor performs them.
pub fn chunk_plan(file_len: u64, buf_size: usize) -> (plan: Vec<Chunk>)
    requires
        buf_size > 0,
    ensures
        plan@.map_values(|c: Chunk| chunk_view(c)) == spec_chunk_plan(
            file_len as nat,
            buf_size as nat,
        ),
{
    let b: u64 = buf_size as u64;
    let full: u64 = file_len / b;
    let last: u64 = file_len % b;
    let ghost gfull = full_chunks(file_len as nat, buf_size as nat);
    proof {
        assert(full * b <= file_len) by (nonlinear_arith)
            requires
                full == file_len / b,
                b > 0,
        ;
    }
    let mut plan: Vec<Chunk> = Vec::new();
    let mut i: u64 = 0;
    while i < full
        invariant
            b == buf_size as u64,
            b > 0,
            full == gfull,
            full * b <= file_len,
            i <= full,
            plan@.len() == i,
            forall|k: int|
                0 <= k < i ==> #[trigger] chunk_view(plan@[k]) == ((k * b) as nat, buf_size as nat),
        decreases full - i,
    {
        proof {
            lemma_mul_le(i as nat, full as nat, b as nat);
        }
        let offset: u64 = i * b;
        plan.push(Chunk { offset, len: buf_size });
        i = i + 1;
    }
    if last > 0 {
        let offset: u64 = full * b;
        plan.push(Chunk { offset, len: last as usize });
    }
    proof {
        let target = spec_chunk_plan(file_len as nat, buf_size as nat);
        assert(plan@.map_values(|c: Chunk| chunk_view(c)) =~= target);
    }
    plan
}

/// The chunks of a plan tile the file: each starts where the previous one
/// ended, none is empty or larger than the buffer, and the last one ends at
/// the end of the file.
pub proof fn lemma_chunk_plan_tiles_file(file_len: nat, buf_size: nat)
    requires
        buf_size > 0,
    ensures
        ({
            let plan = spec_chunk_plan(file_len, buf_size);
            &&& plan.len() == 0 <==> file_len == 0
            &&& plan.len() > 0 ==> plan[0].0 == 0
            &&& forall|k: int| 0 <= k < plan.len() ==> 0 < #[trigger] plan[k].1 <= buf_size
            &&& forall|k: int|
                0 <= k < plan.len() - 1 ==> #[trigger] plan[k].0 + plan[k].1 == plan[k + 1].0
            &&& plan.len() > 0 ==> plan.last().0 + plan.last().1 == file_len
        }),
{
    let plan = spec_chunk_plan(file_len, buf_size);
    let full = full_chunks(file_len, buf_size);
    let tail = tail_len(file_len, buf_size);
    assert(file_len == full * buf_size + tail && tail < buf_size) by (nonlinear_arith)
        requires
            full == file_len / buf_size,
            tail == file_len % buf_size,
            buf_size > 0,
    ;
    assert forall|k: int| 0 <= k < plan.len() - 1 implies #[trigger] plan[k].0 + plan[k].1
        == plan[k + 1].0 by {
        assert(k * buf_size + buf_size == (k + 1) * buf_size) by (nonlinear_arith);
    }
    if full == 0 {
        assert(full * buf_size == 0);
    }
    if file_len == 0 {
        assert(full == 0) by (nonlinear_arith)
            requires
                file_len == full * buf_size + tail,
                buf_size > 0,
                file_len == 0,
        ;
    }
    if plan.len() > 0 {
        assert(plan[0].0 == 0);
        if tail == 0 {
            assert(((full - 1) * buf_size) + buf_size == full * buf_size) by (nonlinear_arith);
        }
    }
}

/// The contents of a file after the chunk of `len` bytes at `offset` was
/// read, xor-ed with `key` and written back in place.
pub open spec fn xor_chunk(file: Seq<u8>, offset: nat, len: nat, key: u8) -> Seq<u8> {
    Seq::new(
        file.len(),
        |i: int|
            if offset <= i < offset + len {
                file[i] ^ key
            } else {
                file[i]
            },
    )
}

/// The contents of a file after every chunk of `plan` was processed, in order.
pub open spec fn apply_plan(file: Seq<u8>, plan: Seq<(nat, nat)>, key: u8) -> Seq<u8>
    decreases plan.len(),
{
    if plan.len() == 0 {
        file
    } else {
        xor_chunk(apply_plan(file, plan.drop_last(), key), plan.last().0, plan.last().1, key)
    }
}

/// The contents of a file after the encryptor went through it with a buffer
/// of `buf_size` bytes and the key `key`.
pub open spec fn encrypted_file(file: Seq<u8>, key: u8, buf_size: nat) -> Seq<u8> {
    apply_plan(file, spec_chunk_plan(file.len(), buf_size), key)
}

/// `file` with the bytes before `end` xor-ed with `key`.
spec fn xored_prefix(file: Seq<u8>, end: nat, key: u8) -> Seq<u8> {
    Seq::new(file.len(), |i: int| if i < end { file[i] ^ key } else { file[i] })
}

/// Where the first `k` chunks of a plan end.
spec fn plan_end(plan: Seq<(nat, nat)>, k: int) -> nat {
    if k <= 0 {
        0
    } else {
        plan[k - 1].0 + plan[k - 1].1
    }
}

proof fn lemma_apply_prefix(file: Seq<u8>, plan: Seq<(nat, nat)>, key: u8, k: int)
    requires
        0 <= k <= plan.len(),
        plan.len() > 0 ==> plan[0].0 == 0,
        forall|j: int| 0 <= j < plan.len() - 1 ==> #[trigger] plan[j].0 + plan[j].1 == plan[j + 1].0,
    ensures
        apply_plan(file, plan.take(k), key) == xored_prefix(file, plan_end(plan, k), key),
    decreases k,
{
    if k == 0 {
        assert(apply_plan(file, plan.take(0), key) == file);
        assert(xored_prefix(file, 0, key) =~= file);
    } else {
        lemma_apply_prefix(file, plan, key, k - 1);
        assert(plan.take(k).drop_last() =~= plan.take(k - 1));
        assert(plan.take(k).last() == plan[k - 1]);
        let e = plan_end(plan, k - 1);
        if k > 1 {
            assert(plan[k - 2].0 + plan[k - 2].1 == plan[k - 1].0);
        }
        assert(plan[k - 1].0 == e);
        assert(xor_chunk(xored_prefix(file, e, key), e, plan[k - 1].1, key) =~= xored_prefix(
            file,
            plan_end(plan, k),
            key,
        ));
    }
}

/// Going through a file with a buffer of any size xors every byte of it
/// with the key, once.
pub proof fn lemma_encrypted_file_xors_every_byte(file: Seq<u8>, key: u8, buf_size: nat)
    requires
        buf_size > 0,
    ensures
        xored_with(file, encrypted_file(file, key, buf_size), key),
{
    let plan = spec_chunk_plan(file.len(), buf_size);
    lemma_chunk_plan_tiles_file(file.len(), buf_size);
    lemma_apply_prefix(file, plan, key, plan.len() as int);
    assert(plan.take(plan.len() as int) =~= plan);
    if plan.len() == 0 {
        assert(xored_prefix(file, 0, key) =~= file);
    }
    assert(plan_end(plan, plan.len() as int) == file.len());
}

/// Encrypting a file twice with the same key restores it, whatever the
/// buffer sizes of the two passes.
pub proof fn lemma_encrypt_twice_restores_file(file: Seq<u8>, key: u8, buf1: nat, buf2: nat)
    requires
        buf1 > 0,
        buf2 > 0,
    ensures
        encrypted_file(encrypted_file(file, key, buf1), key, buf2) == file,
{
    let once = encrypted_file(file, key, buf1);
    lemma_encrypted_file_xors_every_byte(file, key, buf1);
    lemma_encrypted_file_xors_every_byte(once, key, buf2);
    lemma_xor_twice_restores(file, once, encrypted_file(once, key, buf2), key);
}

} // verus!
