use wayfinder::error::WayfinderError;

#[test]
fn errors_are_numbered_in_declaration_order() {
    let all = [
        WayfinderError::InvalidInstruction,
        WayfinderError::IncorrectProgramId,
        WayfinderError::AccountNotWritable,
        WayfinderError::AccountNotSigner,
        WayfinderError::InvalidPoolAccount,
        WayfinderError::NoValidPath,
        WayfinderError::InsufficientLiquidity,
        WayfinderError::SlippageExceeded,
        WayfinderError::InvalidRoute,
        WayfinderError::MaximumHopsExceeded,
        WayfinderError::InvalidPoolState,
        WayfinderError::CalculationOverflow,
    ];
    for (i, e) in all.iter().enumerate() {
        assert_eq!(e.code(), i as u32);
    }
}

#[test]
fn errors_describe_themselves() {
    assert_eq!(WayfinderError::InvalidInstruction.message(), "Invalid Instruction");
    assert_eq!(WayfinderError::IncorrectProgramId.message(), "Incorrect Program ID");
    assert_eq!(WayfinderError::AccountNotWritable.message(), "Account Not Writable");
    assert_eq!(WayfinderError::AccountNotSigner.message(), "Account Not Signer");
    assert_eq!(WayfinderError::InvalidPoolAccount.message(), "Invalid Pool Account");
    assert_eq!(WayfinderError::NoValidPath.message(), "No Valid Path Found");
    assert_eq!(WayfinderError::InsufficientLiquidity.message(), "Insufficient Liquidity");
    assert_eq!(WayfinderError::SlippageExceeded.message(), "Slippage Exceeded");
    assert_eq!(WayfinderError::InvalidRoute.message(), "Invalid Route");
    assert_eq!(WayfinderError::MaximumHopsExceeded.message(), "Maximum Hops Exceeded");
    assert_eq!(WayfinderError::InvalidPoolState.message(), "Invalid Pool State");
    assert_eq!(WayfinderError::CalculationOverflow.message(), "Calculation Overflow");
}

#[test]
fn errors_are_found_again_by_their_numbers() {
    for code in 0..12u32 {
        let e = WayfinderError::from_code(code).unwrap();
        assert_eq!(e.code(), code);
    }
    assert_eq!(WayfinderError::from_code(5), Some(WayfinderError::NoValidPath));
    assert_eq!(WayfinderError::from_code(8), Some(WayfinderError::InvalidRoute));
    assert_eq!(WayfinderError::from_code(12), None);
    assert_eq!(WayfinderError::from_code(u32::MAX), None);
}
