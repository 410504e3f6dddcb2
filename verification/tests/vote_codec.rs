use chrono::{DateTime, Utc};
use socketpv::error::Error;
use socketpv::vote::{BlockID, Instant, PartsSetHeader, Vote, VoteType};

fn test_timestamp() -> Instant {
    let dt = "2017-12-25T03:00:01.234Z".parse::<DateTime<Utc>>().unwrap();
    Instant { secs: dt.timestamp(), nanos: dt.timestamp_subsec_nanos() }
}

fn vector_one_vote() -> Vote {
    let addr: [u8; 20] = [
        0xa3, 0xb2, 0xcc, 0xdd, 0x71, 0x86, 0xf1, 0x68, 0x5f, 0x21, 0xf2, 0x48, 0x2a, 0xf4, 0xfb,
        0x34, 0x46, 0xa8, 0x4b, 0x35,
    ];
    Vote {
        validator_address: addr.to_vec(),
        validator_index: 56789,
        height: 12345,
        round: 2,
        timestamp: test_timestamp(),
        vote_type: VoteType::PreVote,
        block_id: BlockID {
            hash: "hash".as_bytes().to_vec(),
            parts_header: PartsSetHeader {
                total: 1000000,
                hash: "parts_hash".as_bytes().to_vec(),
            },
        },
        signature: None,
    }
}

fn vector_one_bytes() -> Vec<u8> {
    vec![
        0x58, 0x6c, 0x1d, 0x3a, 0x33, 0xb, 0xa, 0x14, 0xa3, 0xb2, 0xcc, 0xdd, 0x71, 0x86, 0xf1,
        0x68, 0x5f, 0x21, 0xf2, 0x48, 0x2a, 0xf4, 0xfb, 0x34, 0x46, 0xa8, 0x4b, 0x35, 0x10, 0xaa,
        0xf7, 0x6, 0x19, 0x0, 0x0, 0x0, 0x0, 0x0, 0x0, 0x30, 0x39, 0x20, 0x4, 0x2b, 0x9, 0x0, 0x0,
        0x0, 0x0, 0x5a, 0x40, 0x69, 0xb1, 0x15, 0xd, 0xf2, 0x8e, 0x80, 0x4, 0x30, 0x1, 0x3b, 0xa,
        0x4, 0x68, 0x61, 0x73, 0x68, 0x13, 0x8, 0x80, 0x89, 0x7a, 0x12, 0xa, 0x70, 0x61, 0x72,
        0x74, 0x73, 0x5f, 0x68, 0x61, 0x73, 0x68, 0x4, 0x4, 0x4, 0x4,
    ]
}

#[test]
fn test_vote_serialization() {
    let addr: [u8; 20] = [
        0xa3, 0xb2, 0xcc, 0xdd, 0x71, 0x86, 0xf1, 0x68, 0x5f, 0x21, 0xf2, 0x48, 0x2a, 0xf4, 0xfb,
        0x34, 0x46, 0xa8, 0x4b, 0x35,
    ];
    {
        let vote = Vote {
            validator_address: addr.to_vec(),
            validator_index: 56789,
            height: 12345,
            round: 2,
            timestamp: "2017-12-25T03:00:01.234Z"
                .parse::<DateTime<Utc>>()
                .map(|dt| Instant { secs: dt.timestamp(), nanos: dt.timestamp_subsec_nanos() })
                .unwrap(),
            vote_type: VoteType::PreVote,
            block_id: BlockID {
                hash: "hash".as_bytes().to_vec(),
                parts_header: PartsSetHeader {
                    total: 1000000,
                    hash: "parts_hash".as_bytes().to_vec(),
                },
            },
            signature: None,
        };

        let have = vote.serialize();
        let want = vec![
            0x58, 0x6c, 0x1d, 0x3a, 0x33, 0xb, 0xa, 0x14, 0xa3, 0xb2, 0xcc, 0xdd, 0x71, 0x86,
            0xf1, 0x68, 0x5f, 0x21, 0xf2, 0x48, 0x2a, 0xf4, 0xfb, 0x34, 0x46, 0xa8, 0x4b, 0x35,
            0x10, 0xaa, 0xf7, 0x6, 0x19, 0x0, 0x0, 0x0, 0x0, 0x0, 0x0, 0x30, 0x39, 0x20, 0x4,
            0x2b, 0x9, 0x0, 0x0, 0x0, 0x0, 0x5a, 0x40, 0x69, 0xb1, 0x15, 0xd, 0xf2, 0x8e, 0x80,
            0x4, 0x30, 0x1, 0x3b, 0xa, 0x4, 0x68, 0x61, 0x73, 0x68, 0x13, 0x8, 0x80, 0x89, 0x7a,
            0x12, 0xa, 0x70, 0x61, 0x72, 0x74, 0x73, 0x5f, 0x68, 0x61, 0x73, 0x68, 0x4, 0x4, 0x4,
            0x4,
        ];
        assert_eq!(have, want)
    }
    {
        let vote = Vote {
            validator_address: addr.to_vec(),
            validator_index: 56789,
            height: 12345,
            round: 2,
            timestamp: "2017-12-25T03:00:01.234Z"
                .parse::<DateTime<Utc>>()
                .map(|dt| Instant { secs: dt.timestamp(), nanos: dt.timestamp_subsec_nanos() })
                .unwrap(),
            vote_type: VoteType::PreVote,
            block_id: BlockID {
                hash: "hash".as_bytes().to_vec(),
                parts_header: PartsSetHeader { total: 0, hash: vec![] },
            },
            signature: None,
        };

        let have = vote.serialize();
        let want = vec![
            0x4a, 0x6c, 0x1d, 0x3a, 0x33, 0xb, 0xa, 0x14, 0xa3, 0xb2, 0xcc, 0xdd, 0x71, 0x86,
            0xf1, 0x68, 0x5f, 0x21, 0xf2, 0x48, 0x2a, 0xf4, 0xfb, 0x34, 0x46, 0xa8, 0x4b, 0x35,
            0x10, 0xaa, 0xf7, 0x6, 0x19, 0x0, 0x0, 0x0, 0x0, 0x0, 0x0, 0x30, 0x39, 0x20, 0x4,
            0x2b, 0x9, 0x0, 0x0, 0x0, 0x0, 0x5a, 0x40, 0x69, 0xb1, 0x15, 0xd, 0xf2, 0x8e, 0x80,
            0x4, 0x30, 0x1, 0x3b, 0xa, 0x4, 0x68, 0x61, 0x73, 0x68, 0x13, 0x8, 0x0, 0x4, 0x4, 0x4,
            0x4,
        ];
        assert_eq!(have, want)
    }
}

#[test]
fn test_derialization() {
    let addr = vec![
        0xa3, 0xb2, 0xcc, 0xdd, 0x71, 0x86, 0xf1, 0x68, 0x5f, 0x21, 0xf2, 0x48, 0x2a, 0xf4, 0xfb,
        0x34, 0x46, 0xa8, 0x4b, 0x35,
    ];
    let want = Vote {
        validator_address: addr,
        validator_index: 56789,
        height: 12345,
        round: 2,
        block_id: BlockID {
            hash: "hash".as_bytes().to_vec(),
            parts_header: PartsSetHeader {
                total: 1000000,
                hash: "parts_hash".as_bytes().to_vec(),
            },
        },
        timestamp: "2017-12-25T03:00:01.234Z"
            .parse::<DateTime<Utc>>()
            .map(|dt| Instant { secs: dt.timestamp(), nanos: dt.timestamp_subsec_nanos() })
            .unwrap(),
        vote_type: VoteType::PreVote,
        signature: None,
    };
    let data = vec![
        0x58, 0x6c, 0x1d, 0x3a, 0x33, 0xb, 0xa, 0x14, 0xa3, 0xb2, 0xcc, 0xdd, 0x71, 0x86, 0xf1,
        0x68, 0x5f, 0x21, 0xf2, 0x48, 0x2a, 0xf4, 0xfb, 0x34, 0x46, 0xa8, 0x4b, 0x35, 0x10, 0xaa,
        0xf7, 0x6, 0x19, 0x0, 0x0, 0x0, 0x0, 0x0, 0x0, 0x30, 0x39, 0x20, 0x4, 0x2b, 0x9, 0x0, 0x0,
        0x0, 0x0, 0x5a, 0x40, 0x69, 0xb1, 0x15, 0xd, 0xf2, 0x8e, 0x80, 0x4, 0x30, 0x1, 0x3b, 0xa,
        0x4, 0x68, 0x61, 0x73, 0x68, 0x13, 0x8, 0x80, 0x89, 0x7a, 0x12, 0xa, 0x70, 0x61, 0x72,
        0x74, 0x73, 0x5f, 0x68, 0x61, 0x73, 0x68, 0x4, 0x4, 0x4, 0x4,
    ];

    match Vote::deserialize(&data) {
        Err(err) => assert!(false, "{:?}", err),
        Ok(have) => assert_eq!(have, want),
    }
}

#[test]
fn vote_round_trip_with_signature() {
    let mut vote = vector_one_vote();
    vote.signature = Some(vec![0x5a; 64]);
    let bytes = vote.clone().serialize();
    let back = Vote::deserialize(&bytes).unwrap();
    assert_eq!(back, vote);
}

#[test]
fn vote_round_trip_omitted_fields() {
    let mut vote = vector_one_vote();
    vote.validator_address = vec![];
    vote.block_id.hash = vec![];
    vote.block_id.parts_header = PartsSetHeader { total: 0, hash: vec![] };
    let bytes = vote.clone().serialize();
    let back = Vote::deserialize(&bytes).unwrap();
    assert_eq!(back, vote);
}

#[test]
fn omitting_the_address_shortens_by_its_field() {
    let full = vector_one_vote();
    let mut bare = vector_one_vote();
    bare.validator_address = vec![];
    // one key byte, one length byte and twenty address bytes disappear
    assert_eq!(full.serialize().len() - 22, bare.serialize().len());
}

#[test]
fn length_prefix_names_the_remainder() {
    let bytes = vector_one_vote().serialize();
    // the first byte of the worked vector is its whole length prefix
    assert_eq!(bytes[0] as usize, bytes.len() - 1);
}

#[test]
fn truncated_vote_is_rejected() {
    let bytes = vector_one_bytes();
    let cut = &bytes[..bytes.len() - 3];
    assert_eq!(Vote::deserialize(cut), Err(Error::Truncated));
}

#[test]
fn wrong_vote_type_is_rejected() {
    let mut bytes = vector_one_bytes();
    // the byte after the vote-type key (0x30) at offset 59 of the worked vector
    assert_eq!(bytes[59], 0x30);
    bytes[60] = 0x03;
    assert_eq!(Vote::deserialize(&bytes), Err(Error::InvalidVoteType));
}

#[test]
fn wrong_field_key_is_rejected() {
    let mut bytes = vector_one_bytes();
    // corrupt the index field key (0x10) at offset 28 of the worked vector
    assert_eq!(bytes[28], 0x10);
    bytes[28] = 0x18;
    assert_eq!(
        Vote::deserialize(&bytes),
        Err(Error::UnexpectedField { got: 0x18, want: 0x10 })
    );
}

#[test]
fn overlong_varint_is_rejected() {
    // a frame whose length prefix never terminates within ten bytes
    let bytes = vec![0x80u8; 11];
    assert_eq!(Vote::deserialize(&bytes), Err(Error::Overflow));
}
