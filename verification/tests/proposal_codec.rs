use chrono::{DateTime, Utc};
use socketpv::error::Error;
use socketpv::proposal::Proposal;
use socketpv::vote::{BlockID, Instant, PartsSetHeader};

fn sample_proposal() -> Proposal {
    let dt = "2018-02-11T07:09:22.765Z".parse::<DateTime<Utc>>().unwrap();
    Proposal {
        height: 12345,
        round: 23456,
        timestamp: Instant { secs: dt.timestamp(), nanos: dt.timestamp_subsec_nanos() },
        block_parts_header: PartsSetHeader {
            total: 111,
            hash: "blockparts".as_bytes().to_vec(),
        },
        pol_round: -1,
        pol_block_id: BlockID {
            hash: "hash".as_bytes().to_vec(),
            parts_header: PartsSetHeader {
                total: 1000000,
                hash: "parts_hash".as_bytes().to_vec(),
            },
        },
        signature: None,
    }
}

#[test]
fn proposal_round_trips() {
    let prop = sample_proposal();
    let bytes = prop.clone().serialize();
    assert_eq!(Proposal::deserialize(&bytes).unwrap(), prop);
}

#[test]
fn proposal_round_trips_with_signature() {
    let mut prop = sample_proposal();
    prop.signature = Some(vec![0xc4; 64]);
    let bytes = prop.clone().serialize();
    assert_eq!(Proposal::deserialize(&bytes).unwrap(), prop);
}

#[test]
fn proposal_round_trips_with_nil_references() {
    let mut prop = sample_proposal();
    prop.block_parts_header = PartsSetHeader { total: 0, hash: vec![] };
    prop.pol_block_id = BlockID {
        hash: vec![],
        parts_header: PartsSetHeader { total: 0, hash: vec![] },
    };
    let bytes = prop.clone().serialize();
    assert_eq!(Proposal::deserialize(&bytes).unwrap(), prop);
}

#[test]
fn proposal_frame_is_length_prefixed() {
    let bytes = sample_proposal().serialize();
    assert_eq!(bytes[0] as usize, bytes.len() - 1);
}

#[test]
fn truncated_proposal_is_rejected() {
    let bytes = sample_proposal().serialize();
    let cut = &bytes[..bytes.len() - 1];
    assert_eq!(Proposal::deserialize(cut), Err(Error::Truncated));
}
