use routing::codec::{decode, encode, Message};
use routing::error::CodecError;
use routing::messages::find_group_response::{
    FindGroupResponse, FIND_GROUP_RESPONSE_TAG, RANDOM_GROUP_SIZE,
};
use routing::types::{NameType, PublicPmid};

fn member(seed: u8) -> PublicPmid {
    PublicPmid {
        name: NameType::new(vec![seed; 64]),
        public_key: vec![seed.wrapping_add(1); 32],
        public_sign_key: vec![seed.wrapping_add(2); 32],
        validation_token: vec![seed.wrapping_add(3); 64],
    }
}

#[test]
fn find_group_response_serialisation() {
    let obj_before = FindGroupResponse::generate_random();

    let bytes = encode(&obj_before).unwrap();

    let obj_after: FindGroupResponse = decode(&bytes).unwrap();

    assert_eq!(obj_before, obj_after);
}

#[test]
fn generate_random_fills_a_group_of_full_credentials() {
    let response = FindGroupResponse::generate_random();
    assert_eq!(RANDOM_GROUP_SIZE, 99);
    assert_eq!(response.group.len(), 99);
    assert_eq!(response.target_id.0.len(), 64);
    for credential in response.group.iter() {
        assert_eq!(credential.name.0.len(), 64);
        assert_eq!(credential.public_key.len(), 32);
        assert_eq!(credential.public_sign_key.len(), 32);
        assert_eq!(credential.validation_token.len(), 64);
    }
}

#[test]
fn empty_group_has_the_expected_frame() {
    let response = FindGroupResponse { target_id: NameType::new(vec![1, 2, 3]), group: vec![] };
    let bytes = encode(&response).unwrap();
    assert_eq!(FIND_GROUP_RESPONSE_TAG, 5483001);
    assert_eq!(bytes, vec![0xda, 0x00, 0x53, 0xa9, 0xf9, 0x82, 0x43, 1, 2, 3, 0x80]);
    let back: FindGroupResponse = decode(&bytes).unwrap();
    assert_eq!(back, response);
}

#[test]
fn one_member_has_the_expected_frame() {
    let response = FindGroupResponse {
        target_id: NameType::new(vec![]),
        group: vec![PublicPmid {
            name: NameType::new(vec![0xdd]),
            public_key: vec![0xaa],
            public_sign_key: vec![0xbb, 0xbc],
            validation_token: vec![],
        }],
    };
    let bytes = encode(&response).unwrap();
    assert_eq!(
        bytes,
        vec![
            0xda, 0x00, 0x53, 0xa9, 0xf9, 0x82, 0x40, 0x81, 0x84, 0x41, 0xaa, 0x42, 0xbb, 0xbc,
            0x40, 0x41, 0xdd
        ]
    );
    let back: FindGroupResponse = decode(&bytes).unwrap();
    assert_eq!(back, response);
}

#[test]
fn round_trip_of_ninety_nine_members() {
    let mut group = Vec::new();
    for i in 0..99u8 {
        group.push(member(i));
    }
    let response = FindGroupResponse { target_id: NameType::new(vec![7; 64]), group };
    let bytes = encode(&response).unwrap();
    let back: FindGroupResponse = decode(&bytes).unwrap();
    assert_eq!(back, response);
    assert_eq!(back.group.len(), 99);
}

#[test]
fn long_fields_use_wider_heads() {
    let response = FindGroupResponse {
        target_id: NameType::new(vec![9; 300]),
        group: vec![PublicPmid {
            name: NameType::new(vec![1; 24]),
            public_key: vec![2; 255],
            public_sign_key: vec![3; 256],
            validation_token: vec![4; 70_000],
        }],
    };
    let bytes = encode(&response).unwrap();
    // the identifier: major type 2, two bytes of length
    assert_eq!(&bytes[6..9], &[0x59, 0x01, 0x2c]);
    let back: FindGroupResponse = decode(&bytes).unwrap();
    assert_eq!(back, response);
}

#[test]
fn decoding_no_bytes_is_unexpected_eof() {
    let r: Result<FindGroupResponse, CodecError> = decode(&vec![]);
    assert_eq!(r, Err(CodecError::UnexpectedEof));
}

#[test]
fn decoding_every_truncation_is_malformed() {
    let response = FindGroupResponse {
        target_id: NameType::new(vec![5; 64]),
        group: vec![member(1), member(2)],
    };
    let bytes = encode(&response).unwrap();
    for n in 1..bytes.len() {
        let r: Result<FindGroupResponse, CodecError> = decode(&bytes[..n].to_vec());
        assert_eq!(r, Err(CodecError::Malformed), "cut at {}", n);
    }
}

#[test]
fn bytes_behind_the_frame_are_left_unread() {
    let response = FindGroupResponse { target_id: NameType::new(vec![1]), group: vec![member(3)] };
    let mut bytes = encode(&response).unwrap();
    let frame_len = bytes.len();
    bytes.extend_from_slice(&[0xff, 0x00, 0x17]);
    let back: FindGroupResponse = decode(&bytes).unwrap();
    assert_eq!(back, response);
    let (again, next) = FindGroupResponse::decode(&bytes, 0).unwrap();
    assert_eq!(again, response);
    assert_eq!(next, frame_len);
}

#[test]
fn any_tag_is_accepted() {
    // tag 1 in the shortest head, then the pair of an empty identifier and an empty group
    let bytes = vec![0xc1, 0x82, 0x40, 0x80];
    let back: FindGroupResponse = decode(&bytes).unwrap();
    assert_eq!(back, FindGroupResponse { target_id: NameType::new(vec![]), group: vec![] });
}

#[test]
fn heads_wider_than_needed_are_accepted() {
    // tag in eight bytes, array heads in one byte of argument, the identifier's length in two
    let bytes = vec![
        0xdb, 0, 0, 0, 0, 0, 0x53, 0xa9, 0xf9, 0x98, 0x02, 0x59, 0x00, 0x01, 0x2a, 0x98, 0x00,
    ];
    let back: FindGroupResponse = decode(&bytes).unwrap();
    assert_eq!(back, FindGroupResponse { target_id: NameType::new(vec![0x2a]), group: vec![] });
}

#[test]
fn frames_of_another_shape_are_malformed() {
    // not a tag
    let r: Result<FindGroupResponse, CodecError> = decode(&vec![0x82, 0x40, 0x80]);
    assert_eq!(r, Err(CodecError::Malformed));
    // a tag over an array of three
    let r: Result<FindGroupResponse, CodecError> = decode(&vec![0xc1, 0x83, 0x40, 0x80, 0x80]);
    assert_eq!(r, Err(CodecError::Malformed));
    // the identifier is an array, not a byte string
    let r: Result<FindGroupResponse, CodecError> = decode(&vec![0xc1, 0x82, 0x80, 0x80]);
    assert_eq!(r, Err(CodecError::Malformed));
    // a member with three fields
    let r: Result<FindGroupResponse, CodecError> =
        decode(&vec![0xc1, 0x82, 0x40, 0x81, 0x83, 0x40, 0x40, 0x40]);
    assert_eq!(r, Err(CodecError::Malformed));
    // a head of indefinite length
    let r: Result<FindGroupResponse, CodecError> = decode(&vec![0xc1, 0x9f, 0x40, 0x80, 0xff]);
    assert_eq!(r, Err(CodecError::Malformed));
    // a group that announces more members than the bytes hold
    let r: Result<FindGroupResponse, CodecError> =
        decode(&vec![0xc1, 0x82, 0x40, 0x9b, 0xff, 0xff, 0xff, 0xff, 0xff, 0xff, 0xff, 0xff]);
    assert_eq!(r, Err(CodecError::Malformed));
    // a byte string that announces more bytes than there are
    let r: Result<FindGroupResponse, CodecError> =
        decode(&vec![0xc1, 0x82, 0x5b, 0xff, 0xff, 0xff, 0xff, 0xff, 0xff, 0xff, 0xff, 0x00]);
    assert_eq!(r, Err(CodecError::Malformed));
}

#[test]
fn equal_values_encode_alike() {
    let a = FindGroupResponse { target_id: NameType::new(vec![8; 64]), group: vec![member(9)] };
    let b = a.clone();
    assert_eq!(a, b);
    assert_eq!(encode(&a).unwrap(), encode(&b).unwrap());
}
