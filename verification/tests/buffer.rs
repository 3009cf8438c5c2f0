use healer::mutation::buffer;
use healer::mutation::buffer::{apply_blob_op, erase, shuffle, InsertContent, BLOB_MUTATE_OPERATIONS};
use rand::rngs::SmallRng;
use rand::{Rng, SeedableRng};

fn rand_buf(rng: &mut SmallRng) -> Vec<u8> {
    let len = rng.gen_range(8..=128);
    (0..=len).map(|_| rng.gen()).collect()
}

#[test]
fn shuffle_empty() {
    let mut rng = SmallRng::from_entropy();
    let mut empty = Vec::new();
    assert!(!shuffle(&mut rng, &mut empty));
}

#[test]
fn erase_empty() {
    let mut rng = SmallRng::from_entropy();
    let mut empty = Vec::new();
    assert!(!erase(&mut rng, &mut empty, (0, 0)));
}

#[test]
fn insert_new_content() {
    let mut rng = SmallRng::from_entropy();
    let mut buf = Vec::new();
    buffer::insert_new_content(&mut rng, &mut buf, (0, 4), InsertContent::Byte(0));
    // insert to end
    assert!(buf.len() >= 2 && buf.len() <= 4);
    // no left space
    assert!(!buffer::insert_new_content(&mut rng, &mut buf, (0, 1), InsertContent::Byte(0)));
    for _ in 0..1024 {
        let len = rng.gen_range(0..=64);
        let max_len = rng.gen_range(len + 2..=len + 64);
        let mut buf = Vec::new();
        buf.resize(len, 0);
        assert!(buffer::insert_new_content(
            &mut rng,
            &mut buf,
            (0, max_len as u64),
            InsertContent::Byte(0)
        ))
    }
}

#[test]
fn all_mutations_not_panic() {
    let mut rng = SmallRng::from_entropy();
    let r = (0, 256);

    for op in 0..BLOB_MUTATE_OPERATIONS {
        for _ in 0..4096 {
            let mut v = rand_buf(&mut rng);
            apply_blob_op(&mut rng, &mut v, r, op);
        }
    }
}

#[test]
fn insert_new_content_fills_with_byte() {
    let mut rng = SmallRng::seed_from_u64(3);
    let mut buf = vec![1u8, 2, 3];
    assert!(buffer::insert_new_content(&mut rng, &mut buf, (0, 64), InsertContent::Byte(0xff)));
    let added = buf.iter().filter(|b| **b == 0xff).count();
    assert!(added >= 2 && added <= 32);
    assert_eq!(buf.len(), 3 + added);
}
