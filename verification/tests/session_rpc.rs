use ed25519_dalek::{Signature, Signer, SigningKey, Verifier};
use socketpv::error::Error;
use socketpv::rpc::{Request, Response, SignRequest};
use socketpv::session::{handle_frame, plan_request, sign_response_frame, SessionAction};
use socketpv::rpc::poison_pill_frame;

#[test]
fn session_happy_path() {
    let sk = SigningKey::from_bytes(&[7u8; 32]);
    let vk = sk.verifying_key();
    let msg: Vec<u8> = vec![
        0x0d, 0x3a, 0x91, 0x5c, 0x22, 0x47, 0x6e, 0xb8, 0x01, 0xf2, 0xc3, 0x84, 0x55, 0x66, 0x77,
        0x18, 0x29, 0x3a, 0x4b, 0x5c, 0x6d, 0x7e, 0x8f, 0x90, 0xa1, 0xb2, 0xc3, 0xd4, 0xe5, 0xf6,
        0x07, 0x18,
    ];
    let req = SignRequest { public_key: vk.to_bytes().to_vec(), msg: msg.clone() };
    let frame = req.serialize();

    // the session decodes the frame and asks the keyring for a signature
    let action = handle_frame(&frame).unwrap();
    let to_sign = match action {
        SessionAction::SignWith(r) => {
            assert_eq!(r.public_key, vk.to_bytes().to_vec());
            assert_eq!(r.msg, msg);
            r.msg
        },
        SessionAction::Terminate => panic!("a signing request must not end the session"),
    };
    let sig = sk.sign(&to_sign).to_bytes().to_vec();

    // the response frame carries a valid signature over the message
    let resp_frame = sign_response_frame(sig);
    match Response::deserialize(&resp_frame).unwrap() {
        Response::Sign(sr) => {
            let arr: [u8; 64] = sr.sig.as_slice().try_into().unwrap();
            assert!(vk.verify(&msg, &Signature::from_bytes(&arr)).is_ok());
        },
    }
}

#[test]
fn session_poison_pill() {
    let frame = poison_pill_frame();
    match handle_frame(&frame).unwrap() {
        SessionAction::Terminate => {},
        SessionAction::SignWith(_) => panic!("the poison pill must end the session"),
    }
}

#[test]
fn sign_request_round_trips() {
    let req = SignRequest { public_key: vec![0x11; 32], msg: vec![1, 2, 3] };
    let frame = req.serialize();
    assert_eq!(Request::deserialize(&frame).unwrap(), Request::Sign(req));
}

#[test]
fn sign_request_with_empty_fields_round_trips() {
    let req = SignRequest { public_key: vec![], msg: vec![] };
    let frame = req.serialize();
    assert_eq!(Request::deserialize(&frame).unwrap(), Request::Sign(req));
}

#[test]
fn unknown_message_kind_is_rejected() {
    // a frame whose registered-name prefix belongs to no request
    let frame = vec![0x07, 0x99, 0x01, 0x02, 0x03, 0x0b, 0x04, 0x04];
    assert_eq!(
        Request::deserialize(&frame),
        Err(Error::UnexpectedField { got: 0x99, want: 0x7e })
    );
}

#[test]
fn poison_pill_plan_is_terminate() {
    match plan_request(Request::PoisonPill) {
        SessionAction::Terminate => {},
        SessionAction::SignWith(_) => panic!("the poison pill must not be signed"),
    }
}
