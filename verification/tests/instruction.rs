use wayfinder::error::WayfinderError;
use wayfinder::instruction::WayfinderInstruction;

fn key(n: u8) -> [u8; 32] {
    let mut bytes = [n; 32];
    bytes[0] = 0xfe;
    bytes[31] = n.wrapping_add(1);
    bytes
}

fn tagged(tag: u8, payload: Vec<u8>) -> Vec<u8> {
    let mut bytes = vec![tag];
    bytes.extend(payload);
    bytes
}

#[test]
fn unpack_reads_initialize_route() {
    let payload = borsh::to_vec(&(key(1), key(2), 1_000_000u64, 990_000u64, 3u8)).unwrap();
    let bytes = tagged(0, payload);
    assert_eq!(bytes.len(), 82);
    match WayfinderInstruction::unpack(&bytes) {
        Ok(WayfinderInstruction::InitializeRoute {
            input_mint,
            output_mint,
            amount_in,
            min_amount_out,
            max_hops,
        }) => {
            assert_eq!(input_mint, key(1));
            assert_eq!(output_mint, key(2));
            assert_eq!(amount_in, 1_000_000);
            assert_eq!(min_amount_out, 990_000);
            assert_eq!(max_hops, 3);
        }
        other => panic!("unexpected: {:?}", other),
    }
}

#[test]
fn unpack_reads_integers_from_the_low_byte_up() {
    let mut bytes = vec![0u8; 82];
    // amount_in = 0x0807060504030201
    for i in 0..8 {
        bytes[65 + i] = (i + 1) as u8;
    }
    // min_amount_out = u64::MAX
    for i in 0..8 {
        bytes[73 + i] = 0xff;
    }
    bytes[81] = 255;
    match WayfinderInstruction::unpack(&bytes) {
        Ok(WayfinderInstruction::InitializeRoute {
            input_mint,
            output_mint,
            amount_in,
            min_amount_out,
            max_hops,
        }) => {
            assert_eq!(input_mint, [0u8; 32]);
            assert_eq!(output_mint, [0u8; 32]);
            assert_eq!(amount_in, 0x0807060504030201);
            assert_eq!(min_amount_out, u64::MAX);
            assert_eq!(max_hops, 255);
        }
        other => panic!("unexpected: {:?}", other),
    }
}

#[test]
fn unpack_reads_the_operations_without_fields() {
    assert!(matches!(
        WayfinderInstruction::unpack(&[1]),
        Ok(WayfinderInstruction::FindOptimalRoute)
    ));
    assert!(matches!(WayfinderInstruction::unpack(&[2]), Ok(WayfinderInstruction::ExecuteRoute)));
}

#[test]
fn unpack_reads_register_pool() {
    let payload = borsh::to_vec(&(key(7), key(8), 0x1234u16)).unwrap();
    let bytes = tagged(3, payload);
    assert_eq!(bytes.len(), 67);
    assert_eq!(bytes[65], 0x34);
    assert_eq!(bytes[66], 0x12);
    match WayfinderInstruction::unpack(&bytes) {
        Ok(WayfinderInstruction::RegisterPool { token_a_mint, token_b_mint, fee_bps }) => {
            assert_eq!(token_a_mint, key(7));
            assert_eq!(token_b_mint, key(8));
            assert_eq!(fee_bps, 0x1234);
        }
        other => panic!("unexpected: {:?}", other),
    }
}

#[test]
fn unpack_refuses_what_is_no_encoding() {
    let invalid = |bytes: &[u8]| {
        assert!(matches!(
            WayfinderInstruction::unpack(bytes),
            Err(WayfinderError::InvalidInstruction)
        ));
    };
    // nothing at all
    invalid(&[]);
    // unknown tags
    invalid(&[4]);
    invalid(&[255]);
    invalid(&[4; 82]);
    // bytes left over
    invalid(&[1, 0]);
    invalid(&[2, 2]);
    invalid(&[0; 83]);
    invalid(&[3; 68]);
    // bytes missing
    invalid(&[0]);
    invalid(&[0; 81]);
    invalid(&[3]);
    invalid(&[3; 66]);
    // the length of another operation
    invalid(&[0; 67]);
    invalid(&[3; 82]);
    invalid(&[1; 82]);
}

#[test]
fn unpack_agrees_with_borsh_on_many_values() {
    let amounts = [0u64, 1, 255, 256, 65_535, 65_536, 1 << 32, u64::MAX - 1, u64::MAX];
    for (i, amount) in amounts.iter().enumerate() {
        let floor = amounts[amounts.len() - 1 - i];
        let hops = (i * 31) as u8;
        let payload = borsh::to_vec(&(key(i as u8), key(200), *amount, floor, hops)).unwrap();
        match WayfinderInstruction::unpack(&tagged(0, payload)) {
            Ok(WayfinderInstruction::InitializeRoute {
                input_mint,
                output_mint,
                amount_in,
                min_amount_out,
                max_hops,
            }) => {
                assert_eq!(input_mint, key(i as u8));
                assert_eq!(output_mint, key(200));
                assert_eq!(amount_in, *amount);
                assert_eq!(min_amount_out, floor);
                assert_eq!(max_hops, hops);
            }
            other => panic!("unexpected: {:?}", other),
        }
    }
    for fee in [0u16, 1, 30, 255, 256, 9999, 10000, u16::MAX] {
        let payload = borsh::to_vec(&(key(1), key(2), fee)).unwrap();
        match WayfinderInstruction::unpack(&tagged(3, payload)) {
            Ok(WayfinderInstruction::RegisterPool { fee_bps, .. }) => assert_eq!(fee_bps, fee),
            other => panic!("unexpected: {:?}", other),
        }
    }
}
