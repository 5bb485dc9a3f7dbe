use ibe_schemes::field_utils::random_field_element;
use ibe_schemes::lw::{can_decrypt, sample_fr, share_secret, share_secret_with, sum_fr, LW};
use ibe_schemes::{field_element, GTElement, GroupCtx};

fn parse_identity(id: &str) -> Vec<String> {
    id.split(".").map(|s| String::from(s)).collect()
}

fn run_scheme(
    user_identity: &str,
    ct_identity: &str,
    identity_extension: Option<&str>,
) -> (GTElement, Option<GTElement>) {
    let lw = LW::new();
    let (msk, mpk) = lw.setup();

    let k = GroupCtx::bls12_381().scalar_expo_gt(random_field_element());
    let ct_identity = parse_identity(ct_identity);
    let ct = lw.encrypt(&k, &mpk, ct_identity);

    let user_identity = parse_identity(user_identity);
    let usk = lw.keygen(&msk, user_identity.clone());
    let usk = match identity_extension {
        None => usk,
        Some(id) => lw.delegate(&mpk, &usk, user_identity.clone(), String::from(id)),
    };

    let dec = lw.decrypt(&usk, &ct);
    return (k, dec);
}

fn check_decrypt_ok(user_identity: &str, ct_identity: &str, identity_extension: Option<&str>) {
    let (k, dec) = run_scheme(user_identity, ct_identity, identity_extension);
    assert!(dec.is_some_and(|k_dec| k_dec == k));
}

fn check_decrypt_fail(user_identity: &str, ct_identity: &str, identity_extension: Option<&str>) {
    let (_, dec) = run_scheme(user_identity, ct_identity, identity_extension);
    assert!(dec.is_none());
}

#[test]
fn lw_minimal_ok() {
    check_decrypt_ok("A", "A", None);
}

#[test]
fn lw_exact_match_ok() {
    check_decrypt_ok("A.B.C.D", "A.B.C.D", None);
}

#[test]
fn lw_superior_ok() {
    check_decrypt_ok("A.B.C", "A.B.C.D", None);
}

#[test]
fn lw_root_ok() {
    check_decrypt_ok("A", "A.B.C", None);
}

#[test]
fn lw_minimal_fail() {
    check_decrypt_fail("A", "B", None);
}

#[test]
fn lw_hierarchy_mismatch_fail() {
    check_decrypt_fail("A.B.C.D", "A.b.C.D", None);
}

#[test]
fn lw_inferior_fail() {
    check_decrypt_fail("A.B.C.D", "A.B.C", None);
}

#[test]
fn lw_delegate_ok() {
    check_decrypt_ok("A.B.C", "A.B.C.D", Some("D"));
}

#[test]
fn lw_delegate_minimal_ok() {
    check_decrypt_ok("A", "A.B", Some("B"));
}

#[test]
fn lw_delegate_superior_ok() {
    check_decrypt_ok("A.B", "A.B.C.D", Some("C"));
}

#[test]
fn lw_delegate_hierarchy_mismatch_fail() {
    check_decrypt_fail("A.b", "A.B.C.D", Some("C"));
}

#[test]
fn lw_shares_sum_to_the_secret() {
    let secret = field_element(1000);
    for n in [0usize, 1, 2, 5] {
        let shares = share_secret(secret, n);
        assert_eq!(shares.len(), n.max(1));
        assert!(sum_fr(&shares) == secret);
    }
    let rest = vec![field_element(1), field_element(2)];
    let shares = share_secret_with(field_element(10), &rest);
    assert!(shares == vec![field_element(7), field_element(1), field_element(2)]);
    let wrapped = share_secret_with(field_element(1), &rest);
    assert!(sum_fr(&wrapped) == field_element(1));
    assert!(wrapped[0] != field_element(1));
    assert!(sum_fr(&Vec::new()) == field_element(0));
}

#[test]
fn lw_prefix_rule() {
    let path = |s: &str| parse_identity(s);
    assert!(can_decrypt(&path("A"), &path("A")));
    assert!(can_decrypt(&path("A.B"), &path("A.B.C")));
    assert!(!can_decrypt(&path("A.B.C"), &path("A.B")));
    assert!(!can_decrypt(&path("A.X"), &path("A.B.C")));
    assert!(can_decrypt(&Vec::new(), &path("A")));
}

#[test]
fn lw_key_and_ciphertext_have_one_entry_per_level() {
    let lw = LW::new();
    let (msk, mpk) = lw.setup();
    let usk = lw.keygen(&msk, parse_identity("A.B.C"));
    assert_eq!(usk.k.len(), 3);
    assert_eq!(usk.k_1.len(), 3);
    assert_eq!(usk.k_2.len(), 3);
    let extended = lw.delegate(&mpk, &usk, parse_identity("A.B.C"), String::from("D"));
    assert_eq!(extended.identity, parse_identity("A.B.C.D"));
    assert_eq!(extended.k.len(), 4);
    assert_eq!(extended.k_1.len(), 4);
    assert_eq!(extended.k_2.len(), 4);
    let message = GroupCtx::bls12_381().scalar_expo_gt(field_element(3));
    let ct = lw.encrypt(&message, &mpk, parse_identity("A.B"));
    assert_eq!(ct.c_i.len(), 2);
    assert_eq!(ct.c_i_alt.len(), 2);
    assert_eq!(sample_fr(4).len(), 4);
}

#[test]
fn lw_public_key_lifts_the_secrets() {
    let lw = LW::new();
    let group = GroupCtx::bls12_381();
    let (_, mpk) = lw.setup_with(
        field_element(2),
        field_element(3),
        field_element(5),
        field_element(7),
    );
    assert!(mpk.a == group.scalar_expo_gt(field_element(2)));
    assert!(mpk.b_g1 == group.scalar_mul_p1(field_element(3)));
    assert!(mpk.b_g2 == group.scalar_mul_p2(field_element(3)));
    assert!(mpk.b_0_g1 == group.scalar_mul_p1(field_element(5)));
    assert!(mpk.b_1_g2 == group.scalar_mul_p2(field_element(7)));
}
