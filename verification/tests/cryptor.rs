use krom::cryptor::{chunk_plan, xor_buffer};

fn plan(len: u64, buf: usize) -> Vec<(u64, usize)> {
    chunk_plan(len, buf).iter().map(|c| (c.offset, c.len)).collect()
}

#[test]
fn xor_buffer_xors_every_byte() {
    let mut buf = vec![0x00u8, 0x66, 0xff, 0x10];
    xor_buffer(&mut buf, 0x66);
    assert_eq!(buf, vec![0x66, 0x00, 0x99, 0x76]);
}

#[test]
fn xor_buffer_twice_restores() {
    let plain: Vec<u8> = (0..=255u8).collect();
    let mut buf = plain.clone();
    xor_buffer(&mut buf, 0x5a);
    assert_ne!(buf, plain);
    xor_buffer(&mut buf, 0x5a);
    assert_eq!(buf, plain);
}

#[test]
fn xor_buffer_empty() {
    let mut buf: Vec<u8> = Vec::new();
    xor_buffer(&mut buf, 7);
    assert!(buf.is_empty());
}

#[test]
fn chunk_plan_with_remainder() {
    assert_eq!(plan(10, 4), vec![(0, 4), (4, 4), (8, 2)]);
}

#[test]
fn chunk_plan_exact_multiple() {
    assert_eq!(plan(8, 4), vec![(0, 4), (4, 4)]);
}

#[test]
fn chunk_plan_small_and_empty_files() {
    assert_eq!(plan(0, 4), vec![]);
    assert_eq!(plan(3, 4), vec![(0, 3)]);
    assert_eq!(plan(5, 1), vec![(0, 1), (1, 1), (2, 1), (3, 1), (4, 1)]);
}

#[test]
fn chunk_plan_tiles_the_file() {
    for len in 0..200u64 {
        for buf in 1..20usize {
            let p = plan(len, buf);
            let mut next = 0u64;
            for (off, l) in &p {
                assert_eq!(*off, next);
                assert!(*l > 0 && *l <= buf);
                next += *l as u64;
            }
            assert_eq!(next, len);
        }
    }
}

#[test]
fn chunk_plan_one_mebibyte_buffer() {
    let buf = 4096 * 256;
    assert_eq!(plan(3 * buf as u64 + 17, buf), vec![
        (0, buf),
        (buf as u64, buf),
        (2 * buf as u64, buf),
        (3 * buf as u64, 17)
    ]);
}

fn encrypt_in_memory(file: &mut Vec<u8>, key: u8, buf_size: usize) {
    for c in chunk_plan(file.len() as u64, buf_size) {
        let start = c.offset as usize;
        let mut chunk = file[start..start + c.len].to_vec();
        xor_buffer(&mut chunk, key);
        file[start..start + c.len].copy_from_slice(&chunk);
    }
}

#[test]
fn encrypting_twice_with_other_buffer_sizes_restores() {
    let plain: Vec<u8> = (0..1000u32).map(|i| (i * 7 % 251) as u8).collect();
    for (b1, b2) in [(1, 1), (3, 7), (64, 1000), (1000, 999), (4096, 13)] {
        let mut file = plain.clone();
        encrypt_in_memory(&mut file, 0xa5, b1);
        assert!(file.iter().zip(&plain).all(|(e, p)| *e == p ^ 0xa5));
        encrypt_in_memory(&mut file, 0xa5, b2);
        assert_eq!(file, plain, "{b1} then {b2}");
    }
}
