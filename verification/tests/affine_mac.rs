use ibe_schemes::hashing::generate_random_message_128;
use ibe_schemes::AffineMAC;

#[test]
fn affine_mac_small_ok() {
    let k = 2;
    let m_len = 4;
    let l = 2 * m_len + 1;
    let l_prime = 0;
    let mac = AffineMAC::new(k, l, l_prime);
    let sk = mac.gen_mac();

    let message = vec![1u8, 0, 1, 1];
    let tag = mac.tag(&sk, &message);
    let check = mac.verify(&sk, &message, &tag);
    assert!(check);
}

#[test]
fn affine_mac_small_fail() {
    let k = 2;
    let m_len = 4;
    let l = 2 * m_len + 1;
    let l_prime = 0;
    let mac = AffineMAC::new(k, l, l_prime);
    let sk = mac.gen_mac();

    let message = vec![1u8, 0, 1, 1];
    let tag = mac.tag(&sk, &message);
    let new_message = vec![0u8, 0, 1, 1];
    let check = mac.verify(&sk, &new_message, &tag);
    assert!(!check);
}

#[test]
fn affine_mac_large_ok() {
    let m_len = 128;
    let l = 2 * m_len + 1;
    let mac = AffineMAC::new(2, l, 0);
    let sk = mac.gen_mac();

    let message = generate_random_message_128();
    let tag = mac.tag(&sk, &message);
    let check = mac.verify(&sk, &message, &tag);
    assert!(check);
}

#[test]
fn affine_mac_large_fail() {
    let m_len = 128;
    let l = 2 * m_len + 1;
    let mac = AffineMAC::new(2, l, 0);
    let sk = mac.gen_mac();

    let message = generate_random_message_128();
    let tag = mac.tag(&sk, &message);
    let new_message = generate_random_message_128();
    let check = mac.verify(&sk, &new_message, &tag);
    assert!(!check);
}

#[test]
fn affine_mac_key_has_the_configured_dimensions() {
    let mac = AffineMAC::new(3, 5, 1);
    let sk = mac.gen_mac();
    assert_eq!(sk.b.len(), 3);
    assert!(sk.b.iter().all(|row| row.len() == 3));
    assert_eq!(sk.x_matrices.len(), 6);
    assert!(sk.x_matrices.iter().all(|x| x.len() == 6 && x.iter().all(|row| row.len() == 3)));
    assert_eq!(sk.x_prime.len(), 2);
    assert!(sk.x_prime.iter().all(|v| v.len() == 6));
}

#[test]
fn affine_mac_tag_has_the_configured_dimensions() {
    let mac = AffineMAC::new(2, 9, 0);
    let sk = mac.gen_mac();
    let tag = mac.tag(&sk, &[0xa5u8]);
    assert_eq!(tag.t_field.len(), 2);
    assert_eq!(tag.t_g2.len(), 2);
    assert_eq!(tag.u_g2.len(), 4);
}

#[test]
fn affine_mac_same_randomness_gives_same_tag() {
    let mac = AffineMAC::new(2, 9, 0);
    let sk = mac.gen_mac();
    let s = ibe_schemes::field_utils::random_vector(2);
    let first = mac.tag_with(&sk, &[3u8], &s);
    let second = mac.tag_with(&sk, &[3u8], &s);
    assert!(first.t_field == second.t_field);
    assert!(first.t_g2 == second.t_g2);
    assert!(first.u_g2 == second.u_g2);
    assert!(mac.verify(&sk, &[3u8], &first));
}

#[test]
fn affine_mac_rejects_a_tag_under_another_key() {
    let mac = AffineMAC::new(2, 9, 0);
    let sk = mac.gen_mac();
    let other = mac.gen_mac();
    let tag = mac.tag(&sk, &[7u8]);
    assert!(!mac.verify(&other, &[7u8], &tag));
}

#[test]
fn affine_mac_rejects_a_changed_tag() {
    let mac = AffineMAC::new(2, 9, 0);
    let sk = mac.gen_mac();
    let mut tag = mac.tag(&sk, &[7u8]);
    tag.u_g2.swap(0, 1);
    let swapped_equal = tag.u_g2[0] == tag.u_g2[1];
    assert!(swapped_equal || !mac.verify(&sk, &[7u8], &tag));
}
