use secure_random::charset::build_charset;
use secure_random::strgen::{generate_string_with, generate_symbols, symbols_to_string};
use secure_random::subset::{choose_with, sample_indices};
use secure_random::{generate_random_choose, generate_random_string, KeystreamGenerator, RandomError};

fn fixed_generator(nonce: u64) -> KeystreamGenerator {
    let mut key = [0u8; 32];
    for (i, b) in key.iter_mut().enumerate() {
        *b = (i as u8).wrapping_mul(7).wrapping_add(3);
    }
    KeystreamGenerator::from_key_nonce(key, nonce)
}

#[test]
fn digits_only_length_five() {
    let s = generate_random_string(true, false, false, false, 5).unwrap();
    assert_eq!(s.chars().count(), 5);
    assert!(s.chars().all(|c| c.is_ascii_digit()));
}

#[test]
fn string_has_length_and_only_enabled_classes() {
    let specials = "!@#$%^&*-_=+~><?/";
    for mask in 1u8..16 {
        let (d, l, u, sp) = (mask & 1 != 0, mask & 2 != 0, mask & 4 != 0, mask & 8 != 0);
        for length in [1usize, 2, 16, 256] {
            let s = generate_random_string(d, l, u, sp, length).unwrap();
            assert_eq!(s.len(), length);
            for c in s.chars() {
                let ok = (d && c.is_ascii_digit())
                    || (l && c.is_ascii_lowercase())
                    || (u && c.is_ascii_uppercase())
                    || (sp && specials.contains(c));
                assert!(ok, "{:?} not allowed by mask {}", c, mask);
            }
        }
    }
}

#[test]
fn no_class_is_empty_charset() {
    assert_eq!(generate_random_string(false, false, false, false, 8), Err(RandomError::EmptyCharset));
    assert_eq!(generate_random_string(false, false, false, false, 0), Err(RandomError::EmptyCharset));
}

#[test]
fn zero_length_is_invalid() {
    assert_eq!(generate_random_string(true, true, false, false, 0), Err(RandomError::InvalidLength));
}

#[test]
fn charset_order_and_content() {
    let all = build_charset(true, true, true, true);
    let expected = b"0123456789abcdefghijklmnopqrstuvwxyzABCDEFGHIJKLMNOPQRSTUVWXYZ!@#$%^&*-_=+~><?/";
    assert_eq!(all, expected.to_vec());
    assert_eq!(build_charset(false, false, true, false), b"ABCDEFGHIJKLMNOPQRSTUVWXYZ".to_vec());
    assert_eq!(build_charset(true, false, false, true), b"0123456789!@#$%^&*-_=+~><?/".to_vec());
    assert!(build_charset(false, false, false, false).is_empty());
}

#[test]
fn symbols_become_characters() {
    assert_eq!(symbols_to_string(&b"aZ9!".to_vec()), "aZ9!");
    assert_eq!(symbols_to_string(&Vec::new()), "");
}

#[test]
fn choose_two_of_four() {
    let items = vec!["a".to_string(), "b".to_string(), "c".to_string(), "d".to_string()];
    for _ in 0..50 {
        let out = generate_random_choose(items.clone(), 2).unwrap();
        assert_eq!(out.len(), 2);
        assert_ne!(out[0], out[1]);
        assert!(out.iter().all(|x| items.contains(x)));
    }
}

#[test]
fn choose_count_out_of_range() {
    assert_eq!(generate_random_choose(vec![1, 2, 3], 0), Err(RandomError::InvalidBound));
    assert_eq!(generate_random_choose(vec![1, 2, 3], 4), Err(RandomError::InvalidBound));
    assert_eq!(generate_random_choose(Vec::<u32>::new(), 1), Err(RandomError::InvalidBound));
}

#[test]
fn choose_all_returns_each_once() {
    let items: Vec<u32> = (0..20).collect();
    let mut out = generate_random_choose(items.clone(), 20).unwrap();
    out.sort();
    assert_eq!(out, items);
}

#[test]
fn sampled_indices_are_distinct_and_below_n() {
    let mut g = fixed_generator(0);
    for n in 1usize..30 {
        for count in 1..=n {
            let idx = sample_indices(&mut g, n, count).unwrap();
            assert_eq!(idx.len(), count);
            let mut seen = vec![false; n];
            for &i in &idx {
                assert!(i < n);
                assert!(!seen[i]);
                seen[i] = true;
            }
        }
    }
    assert_eq!(sample_indices(&mut g, 3, 0), Err(RandomError::InvalidBound));
    assert_eq!(sample_indices(&mut g, 3, 4), Err(RandomError::InvalidBound));
}

#[test]
fn zero_bound_is_invalid() {
    let mut g = fixed_generator(0);
    assert_eq!(g.random_below(0), Err(RandomError::InvalidBound));
}

#[test]
fn sampler_residues_pass_chi_square() {
    let mut g = fixed_generator(1);
    for max in [2u64, 7, 10, 62, 79] {
        let trials = 2000 * max as usize;
        let mut counts = vec![0usize; max as usize];
        for _ in 0..trials {
            let v = g.random_below(max).unwrap();
            assert!(v < max);
            counts[v as usize] += 1;
        }
        let expected = trials as f64 / max as f64;
        let chi: f64 = counts.iter().map(|&c| (c as f64 - expected).powi(2) / expected).sum();
        let df = (max - 1) as f64;
        // Far beyond the 99.9% quantile for these degrees of freedom.
        assert!(chi < df + 6.0 * (2.0 * df).sqrt() + 10.0, "max {} chi {}", max, chi);
    }
}

#[test]
fn choice_frequencies_are_uniform() {
    let mut g = fixed_generator(2);
    let items: Vec<u32> = (0..5).collect();
    let trials = 20000;
    let mut hits = vec![0usize; 5];
    for _ in 0..trials {
        for x in choose_with(&mut g, &items, 2).unwrap() {
            hits[x as usize] += 1;
        }
    }
    for &h in &hits {
        let f = h as f64 / trials as f64;
        assert!((f - 0.4).abs() < 0.02, "frequency {}", f);
    }
}

#[test]
fn same_key_and_nonce_give_same_stream() {
    let mut a = fixed_generator(9);
    let mut b = fixed_generator(9);
    for len in [1usize, 8, 13, 64, 100] {
        let mut x = vec![0u8; len];
        let mut y = vec![0u8; len];
        a.fill(&mut x);
        b.fill(&mut y);
        assert_eq!(x, y);
    }
    assert_eq!(a.next_u64(), b.next_u64());
    let mut a = fixed_generator(9);
    let mut b = fixed_generator(9);
    assert_eq!(
        generate_string_with(&mut a, true, true, true, true, 40),
        generate_string_with(&mut b, true, true, true, true, 40)
    );
    assert_eq!(choose_with(&mut a, &(0..50).collect::<Vec<u32>>(), 10), choose_with(&mut b, &(0..50).collect::<Vec<u32>>(), 10));
}

#[test]
fn different_nonce_gives_different_stream() {
    let mut a = fixed_generator(0);
    let mut b = fixed_generator(1);
    let mut x = vec![0u8; 32];
    let mut y = vec![0u8; 32];
    a.fill(&mut x);
    b.fill(&mut y);
    assert_ne!(x, y);
}

#[test]
fn zero_key_matches_chacha20_vector() {
    let mut g = KeystreamGenerator::from_key_nonce([0u8; 32], 0);
    let mut out = vec![0u8; 16];
    g.fill(&mut out);
    assert_eq!(
        out,
        vec![0x76, 0xb8, 0xe0, 0xad, 0xa0, 0xf1, 0x3d, 0x90, 0x40, 0x5d, 0x6a, 0xe5, 0x53, 0x86, 0xbd, 0x28]
    );
    let mut g = KeystreamGenerator::from_key_nonce([0u8; 32], 0);
    assert_eq!(g.next_u64(), 0x903d_f1a0_ade0_b876);
}

#[test]
fn fill_discards_rest_of_partial_draw() {
    let mut a = fixed_generator(4);
    let mut b = fixed_generator(4);
    let mut x = vec![0u8; 3];
    a.fill(&mut x);
    let mut y = vec![0u8; 8];
    b.fill(&mut y);
    assert_eq!(&x[..], &y[..3]);
    assert_eq!(a.next_u64(), b.next_u64());
}

#[test]
fn symbols_come_from_charset() {
    let mut g = fixed_generator(5);
    let cs = b"xyz".to_vec();
    let out = generate_symbols(&mut g, &cs, 300).unwrap();
    assert_eq!(out.len(), 300);
    assert!(out.iter().all(|b| cs.contains(b)));
    assert!(cs.iter().all(|b| out.contains(b)));
}

#[test]
fn entropy_seeded_generators_differ() {
    let mut a = KeystreamGenerator::from_entropy().unwrap();
    let mut b = KeystreamGenerator::from_entropy().unwrap();
    assert_ne!(a.next_u64(), b.next_u64());
}

#[test]
fn failed_entropy_read_is_entropy_unavailable() {
    let err = rand::Error::new(std::io::Error::new(std::io::ErrorKind::Other, "no entropy"));
    let r = KeystreamGenerator::from_entropy_read(Err(err), &[7u8; 40]);
    assert!(matches!(r, Err(RandomError::EntropyUnavailable)));
}

#[test]
fn entropy_read_seeds_key_and_little_endian_nonce() {
    let mut seed = [0u8; 40];
    for (i, b) in seed.iter_mut().enumerate() {
        *b = (i as u8).wrapping_mul(11).wrapping_add(1);
    }
    let mut key = [0u8; 32];
    key.copy_from_slice(&seed[..32]);
    let mut nonce_bytes = [0u8; 8];
    nonce_bytes.copy_from_slice(&seed[32..]);
    let nonce = u64::from_le_bytes(nonce_bytes);
    let mut a = match KeystreamGenerator::from_entropy_read(Ok(()), &seed) {
        Ok(g) => g,
        Err(e) => panic!("unexpected {:?}", e),
    };
    let mut b = KeystreamGenerator::from_key_nonce(key, nonce);
    let mut c = KeystreamGenerator::from_seed_bytes(&seed);
    let x = a.next_u64();
    assert_eq!(x, b.next_u64());
    assert_eq!(x, c.next_u64());
    let mut d = KeystreamGenerator::from_key_nonce(key, nonce.swap_bytes());
    assert_ne!(x, d.next_u64());
}

#[test]
fn digits_only_longer_than_charset_repeats() {
    let s = generate_random_string(true, false, false, false, 11).unwrap();
    assert_eq!(s.len(), 11);
    assert!(s.chars().all(|c| c.is_ascii_digit()));
    let mut seen = [false; 10];
    let mut repeated = false;
    for c in s.bytes() {
        let d = (c - b'0') as usize;
        repeated |= seen[d];
        seen[d] = true;
    }
    assert!(repeated);
}

#[test]
fn choose_all_strings_is_a_permutation() {
    let items: Vec<String> = ["a", "b", "c", "d"].iter().map(|s| s.to_string()).collect();
    let mut out = generate_random_choose(items.clone(), 4).unwrap();
    out.sort();
    assert_eq!(out, items);
}
