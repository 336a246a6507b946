use cthulhu::crypto::{double_sha256, hex_encode};

#[test]
fn double_sha256_of_empty_input() {
    assert_eq!(
        hex_encode(&double_sha256(&[])),
        "5df6e0e2761359d30a8275058e299fcc0381534545f55cf43e41983f5d4c9456"
    );
}

#[test]
fn double_sha256_of_hello() {
    assert_eq!(
        hex_encode(&double_sha256(b"hello")),
        "9595c9df90075148eb06860365df33584b75bff782a510c6cd4883a419833d50"
    );
}

#[test]
fn hex_encode_lower_case_two_digits_per_byte() {
    assert_eq!(hex_encode(&[]), "");
    assert_eq!(hex_encode(&[0x00, 0x0f, 0xa5, 0xff]), "000fa5ff");
}
