use ir_decoder::decoder::checksum::calculate;

#[test]
fn calculate_checksum() {
    assert_eq!(calculate(0x86F7), 0x4);
}

#[test]
fn checksum_of_zero_is_zero() {
    assert_eq!(calculate(0x0000), 0x0);
}

#[test]
fn checksum_wraps_at_sixteen() {
    // 0xf + 0xf + 0xf + 0xf = 60 = 3 * 16 + 12
    assert_eq!(calculate(0xFFFF), 0xC);
    // 0x8 + 0x8 = 16
    assert_eq!(calculate(0x0088), 0x0);
}

#[test]
fn checksum_of_each_group_alone() {
    assert_eq!(calculate(0x0007), 0x7);
    assert_eq!(calculate(0x0070), 0x7);
    assert_eq!(calculate(0x0700), 0x7);
    assert_eq!(calculate(0x7000), 0x7);
}

#[test]
fn checksum_of_the_sample_commands() {
    assert_eq!(calculate(0x0C10), 0xD);
    assert_eq!(calculate(0xCAFE), 0x3);
    assert_eq!(calculate(0x42BC), 0xD);
}

#[test]
fn checksum_is_the_same_on_every_call() {
    let mut data: u32 = 0;
    while data <= 0xFFFF {
        let value = data as u16;
        let manual = ((value & 0xF) + ((value >> 4) & 0xF) + ((value >> 8) & 0xF) + (value >> 12)) % 16;
        assert_eq!(calculate(value) as u16, manual);
        assert_eq!(calculate(value), calculate(value));
        data += 257;
    }
}
