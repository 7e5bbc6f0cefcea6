use starknet_api::block::{
    Block, BlockBody, BlockHeader, BlockNumber, BlockStatus, GasPrice, GasPricePerToken,
    StarknetVersion,
};
use starknet_api::data_availability::L1DataAvailabilityMode;
use starknet_api::state::StateNumber;

#[test]
fn block_numbers_follow_one_another() {
    assert_eq!(BlockNumber(0).next(), BlockNumber(1));
    assert_eq!(BlockNumber(41).next(), BlockNumber(42));
    assert_eq!(BlockNumber(u64::MAX - 1).next(), BlockNumber(u64::MAX));
    assert_eq!(BlockNumber(0).prev(), None);
    assert_eq!(BlockNumber(1).prev(), Some(BlockNumber(0)));
    assert_eq!(BlockNumber(u64::MAX).prev(), Some(BlockNumber(u64::MAX - 1)));
}

#[test]
fn block_numbers_up_to() {
    assert_eq!(
        BlockNumber(3).iter_up_to(BlockNumber(6)),
        vec![BlockNumber(3), BlockNumber(4), BlockNumber(5)]
    );
    assert_eq!(BlockNumber(3).iter_up_to(BlockNumber(3)), vec![]);
    assert_eq!(BlockNumber(3).iter_up_to(BlockNumber(1)), vec![]);
    assert_eq!(
        BlockNumber(u64::MAX - 1).iter_up_to(BlockNumber(u64::MAX)),
        vec![BlockNumber(u64::MAX - 1)]
    );
}

#[test]
fn states_lie_between_blocks() {
    assert_eq!(StateNumber::right_before_block(BlockNumber(5)), StateNumber(BlockNumber(5)));
    assert_eq!(StateNumber::right_after_block(BlockNumber(5)), StateNumber(BlockNumber(6)));
    let state = StateNumber(BlockNumber(5));
    assert!(state.is_before(BlockNumber(5)));
    assert!(state.is_before(BlockNumber(6)));
    assert!(!state.is_before(BlockNumber(4)));
    assert!(state.is_after(BlockNumber(4)));
    assert!(!state.is_after(BlockNumber(5)));
    assert_eq!(state.block_after(), BlockNumber(5));
}

#[test]
fn gas_price_bytes() {
    let mut bytes = [0u8; 16];
    bytes[14] = 1;
    bytes[15] = 2;
    assert_eq!(GasPrice::from_be_bytes(bytes), GasPrice(258));
    assert_eq!(GasPrice(258).to_be_bytes(), bytes);
    assert_eq!(GasPrice(u128::MAX).to_be_bytes(), [0xff; 16]);
    assert_eq!(GasPrice::from_be_bytes([0xff; 16]), GasPrice(u128::MAX));
    for price in [0u128, 1, 255, 256, 1 << 64, u128::MAX - 1] {
        assert_eq!(GasPrice(price).to_be_bytes(), price.to_be_bytes());
        assert_eq!(GasPrice::from_be_bytes(price.to_be_bytes()), GasPrice(price));
    }
    assert_eq!(GasPricePerToken::default().price_in_fri, GasPrice(0));
}

#[test]
fn versions_and_statuses_are_spelled() {
    assert_eq!(StarknetVersion::default(), StarknetVersion("0.0.0".to_string()));
    assert_eq!(StarknetVersion("0.13.1".to_string()).to_string(), "0.13.1");
    assert_eq!(BlockStatus::Pending.name(), "PENDING");
    assert_eq!(BlockStatus::AcceptedOnL2.name(), "ACCEPTED_ON_L2");
    assert_eq!(BlockStatus::AcceptedOnL1.name(), "ACCEPTED_ON_L1");
    assert_eq!(BlockStatus::Rejected.name(), "REJECTED");
    assert_eq!(L1DataAvailabilityMode::default(), L1DataAvailabilityMode::Calldata);
}

#[test]
fn a_block_has_a_header_and_a_body() {
    let block: Block<u8, u8> = Block {
        header: BlockHeader::default(),
        body: BlockBody {
            transactions: vec![1],
            transaction_outputs: vec![2],
            transaction_hashes: vec![],
        },
    };
    assert_eq!(block.header.starknet_version, StarknetVersion::default());
    assert_eq!(block.header.block_number, BlockNumber(0));
    assert_eq!(block.clone(), block);
}
