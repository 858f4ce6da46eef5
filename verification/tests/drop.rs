use thin_vec::ThinVec;

#[test]
fn test_drop_empty() {
    let _v = ThinVec::<u8>::new();
}
