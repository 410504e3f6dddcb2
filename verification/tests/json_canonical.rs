use chrono::{DateTime, Utc};
use socketpv::vote::{BlockID, Instant, PartsSetHeader, Vote, VoteType};

fn worked_vote() -> Vote {
    let addr: [u8; 20] = [
        0xa3, 0xb2, 0xcc, 0xdd, 0x71, 0x86, 0xf1, 0x68, 0x5f, 0x21, 0xf2, 0x48, 0x2a, 0xf4, 0xfb,
        0x34, 0x46, 0xa8, 0x4b, 0x35,
    ];
    let dt = "2017-12-25T03:00:01.234Z".parse::<DateTime<Utc>>().unwrap();
    Vote {
        validator_address: addr.to_vec(),
        validator_index: 56789,
        height: 12345,
        round: 2,
        timestamp: Instant { secs: dt.timestamp(), nanos: dt.timestamp_subsec_nanos() },
        vote_type: VoteType::PreVote,
        block_id: BlockID {
            hash: "hash".as_bytes().to_vec(),
            parts_header: PartsSetHeader {
                total: 1000000,
                hash: "parts_hash".as_bytes().to_vec(),
            },
        },
        signature: None,
    }
}

#[test]
fn canonical_json_of_worked_vector() {
    let json = String::from_utf8(worked_vote().cannonicalize("test-chain")).unwrap();
    assert!(json.contains("\"type\":\"\\u0001\""));
    assert!(json.contains("\"timestamp\":\"2017-12-25T03:00:01.234Z\""));
    assert!(json.contains("68617368"));
    let want = "{\"@chain_id\":\"test-chain\",\"@type\":\"vote\",\"block_id\":{\"hash\":\"68617368\",\"parts\":{\"hash\":\"70617274735F68617368\",\"total\":1000000}},\"height\":12345,\"round\":2,\"timestamp\":\"2017-12-25T03:00:01.234Z\",\"type\":\"\\u0001\"}";
    assert_eq!(json, want);
}

#[test]
fn canonical_json_is_deterministic() {
    let a = worked_vote().cannonicalize("test-chain");
    let b = worked_vote().cannonicalize("test-chain");
    assert_eq!(a, b);
}

#[test]
fn canonical_json_escapes_the_chain_id() {
    let json = String::from_utf8(worked_vote().cannonicalize("a\"b\\c\n")).unwrap();
    assert!(json.starts_with("{\"@chain_id\":\"a\\\"b\\\\c\\n\","));
}

#[test]
fn canonical_json_negative_and_zero_numbers() {
    let mut vote = worked_vote();
    vote.height = 0;
    vote.round = 0;
    vote.block_id.parts_header.total = 1;
    vote.block_id.parts_header.hash = vec![0xff];
    let json = String::from_utf8(vote.cannonicalize("c")).unwrap();
    assert!(json.contains("\"height\":0,\"round\":0,"));
    assert!(json.contains("\"parts\":{\"hash\":\"FF\",\"total\":1}"));
}

#[test]
fn precommit_type_character() {
    let mut vote = worked_vote();
    vote.vote_type = VoteType::PreCommit;
    let json = String::from_utf8(vote.cannonicalize("test-chain")).unwrap();
    assert!(json.contains("\"type\":\"\\u0002\""));
}
