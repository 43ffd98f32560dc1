use vmm::bounce::MaybeBounce;
use vmm::bounce::ReadVolatile;
use vmm::bounce::ThrottledReader;
use vmm::bounce::VecReader;
use vmm::bounce::VecWriter;
use vmm::bounce::WriteVolatile;
use vmm::bounce::read_exact_volatile;

#[test]
fn test_bounce() {
    let data: Vec<u8> = (0u8..=255).collect();

    // Write through a direct, a bounced, and a persistently bounced
    // adapter; all must deliver the same bytes.
    let mut direct: MaybeBounce<VecWriter, 0> = MaybeBounce::new(VecWriter::new(), false);
    direct.write_volatile(&data).unwrap();

    let mut bounced: MaybeBounce<VecWriter, 0> = MaybeBounce::new(VecWriter::new(), true);
    bounced.write_volatile(&data).unwrap();

    let mut persistent: MaybeBounce<VecWriter, 7> =
        MaybeBounce::new_persistent(VecWriter::new(), true);
    persistent.write_volatile(&data).unwrap();

    // Read back through the same three flavors of adapter.
    let mut direct_r: MaybeBounce<VecReader, 0> =
        MaybeBounce::new(VecReader::new(data.clone()), false);
    let data_direct = read_exact_volatile(&mut direct_r, 256).unwrap();

    let mut bounced_r: MaybeBounce<VecReader, 0> =
        MaybeBounce::new(VecReader::new(data.clone()), true);
    let data_bounced = read_exact_volatile(&mut bounced_r, 256).unwrap();

    let mut persistent_r: MaybeBounce<VecReader, 7> =
        MaybeBounce::new_persistent(VecReader::new(data.clone()), true);
    let data_persistent_bounced = read_exact_volatile(&mut persistent_r, 256).unwrap();

    assert_eq!(data_direct, data_bounced);
    assert_eq!(data_direct, data);
    assert_eq!(data_persistent_bounced, data);

    // The sinks took exactly the written bytes, in order.
    assert_eq!(direct.into_target().into_data(), data);
    assert_eq!(bounced.into_target().into_data(), data);
    assert_eq!(persistent.into_target().into_data(), data);
}

#[test]
fn test_bounce_short_reads_terminate() {
    // A source that hands out at most 3 bytes per read: a single
    // bounced read ends at the first short chunk.
    let data: Vec<u8> = (0u8..100).collect();
    let mut bounce: MaybeBounce<ThrottledReader, 16> =
        MaybeBounce::new_persistent(ThrottledReader::new(data.clone(), 3), true);
    let first = bounce.read_volatile(64).unwrap();
    assert_eq!(first, data[..3].to_vec());

    // The exact-read helper keeps looping over the short chunks.
    let mut bounce: MaybeBounce<ThrottledReader, 16> =
        MaybeBounce::new_persistent(ThrottledReader::new(data.clone(), 3), true);
    let all = read_exact_volatile(&mut bounce, 100).unwrap();
    assert_eq!(all, data);

    // A source that runs dry fails the exact read.
    let mut short: VecReader = VecReader::new(vec![1, 2, 3]);
    assert!(read_exact_volatile(&mut short, 4).is_err());
}

#[test]
fn test_activate_starts_bouncing() {
    let data = vec![9u8; 20];
    let mut bounce: MaybeBounce<VecWriter, 4> =
        MaybeBounce::new_persistent(VecWriter::new(), false);
    bounce.activate();
    let n = bounce.write_volatile(&data).unwrap();
    assert_eq!(n, 20);
}
