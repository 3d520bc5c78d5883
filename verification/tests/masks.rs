//! Hashing, masking and the notation of numbers and texts.

use logsentry::hash::fnv1a_hash64;
use logsentry::mask::{mask_core, mask_message, mask_token, split_punctuation, MaskPatterns};
use logsentry::text;

fn masked(token: &str) -> String {
    let patterns = MaskPatterns::new().expect("patterns compile");
    mask_token(&patterns, token)
}

#[test]
fn gleiche_eingabe_ergibt_gleichen_hash() {
    assert_eq!(fnv1a_hash64(b"sshd.service"), fnv1a_hash64(b"sshd.service"));
}

#[test]
fn unterschiedliche_eingaben_ergeben_ueblicherweise_unterschiedliche_hashes() {
    assert_ne!(fnv1a_hash64(b"sshd.service"), fnv1a_hash64(b"cron.service"));
}

#[test]
fn leere_eingabe_ist_der_offset_basis_wert() {
    assert_eq!(fnv1a_hash64(b""), 0xcbf2_9ce4_8422_2325);
}

#[test]
fn hash_of_one_letter_is_the_published_one() {
    assert_eq!(fnv1a_hash64(b"a"), 0xaf63_dc4c_8601_ec8c);
}

#[test]
fn maskiert_ipv4() {
    assert_eq!(masked("10.0.0.5"), "<IPV4>");
    assert_eq!(masked("203.0.113.9,"), "<IPV4>,");
}

#[test]
fn maskiert_ipv6() {
    assert_eq!(masked("fe80::1"), "<IPV6>");
    assert_eq!(masked("2001:0db8:85a3:0000:0000:8a2e:0370:7334"), "<IPV6>");
}

#[test]
fn maskiert_mac_nicht_als_ipv6() {
    assert_eq!(masked("AA:BB:CC:DD:EE:FF"), "<MAC>");
    assert_eq!(masked("aa:bb:cc:dd:ee:ff"), "<MAC>");
}

#[test]
fn maskiert_uuid() {
    assert_eq!(masked("550e8400-e29b-41d4-a716-446655440000"), "<UUID>");
}

#[test]
fn maskiert_pid_in_klammern_und_behaelt_prozessnamen() {
    assert_eq!(masked("sshd[1234]:"), "sshd[<PID>]:");
}

#[test]
fn mehrfache_trennzeichen_am_rand_werden_korrekt_getrennt() {
    assert_eq!(masked("cron[998]:"), "cron[<PID>]:");
    assert_eq!(masked("(10.0.0.5),"), "(<IPV4>),");
}

#[test]
fn maskiert_hex_adresse() {
    assert_eq!(masked("0xdeadbeef"), "<HEX>");
}

#[test]
fn maskiert_pfad() {
    assert_eq!(masked("/usr/bin/backup.sh"), "<PATH>");
    assert_eq!(masked("/var/lib/docker/234"), "<PATH>");
}

#[test]
fn maskiert_reine_zahl() {
    assert_eq!(masked("51422"), "<NUM>");
}

#[test]
fn maskiert_zeitstempel() {
    assert_eq!(masked("2026-01-01T00:00:00Z"), "<TIMESTAMP>");
    assert_eq!(masked("03:04:05"), "<TIMESTAMP>");
}

#[test]
fn laesst_geraetenamen_mit_eingebetteten_ziffern_unveraendert() {
    assert_eq!(masked("eth0"), "eth0");
    assert_eq!(masked("nvme0n1"), "nvme0n1");
}

#[test]
fn laesst_normale_woerter_unveraendert() {
    assert_eq!(masked("Accepted"), "Accepted");
    assert_eq!(masked("publickey"), "publickey");
    assert_eq!(masked("alice"), "alice");
}

#[test]
fn mask_message_zerlegt_und_maskiert_ganze_zeile() {
    let patterns = MaskPatterns::new().expect("patterns compile");
    let tokens = mask_message(&patterns, "Accepted publickey for admin from 10.0.0.5");
    assert_eq!(tokens, vec!["Accepted", "publickey", "for", "admin", "from", "<IPV4>"]);
}

#[test]
fn core_without_punctuation_is_masked_as_it_stands() {
    let patterns = MaskPatterns::new().expect("patterns compile");
    assert_eq!(mask_core(&patterns, "10.0.0.5"), "<IPV4>");
    assert_eq!(mask_core(&patterns, "sshd[77]"), "sshd[<PID>]");
    assert_eq!(mask_core(&patterns, ""), "");
}

#[test]
fn punctuation_and_core_make_up_the_token() {
    for token in ["(10.0.0.5),", "\"quoted\"", "plain", "...", ""] {
        let (lead, core, trail) = split_punctuation(token);
        assert_eq!(format!("{lead}{core}{trail}"), token);
    }
}

#[test]
fn numbers_are_read_as_they_are_written() {
    for n in [0u64, 7, 10, 99, 1_000_000, u64::MAX] {
        let written = text::decimal_text(n);
        assert_eq!(written, format!("{n}"));
        assert_eq!(text::parse_unsigned(&written, u64::MAX), Some(n));
    }
}

#[test]
fn numbers_out_of_range_are_not_read() {
    assert_eq!(text::parse_unsigned("256", 255), None);
    assert_eq!(text::parse_unsigned("255", 255), Some(255));
    assert_eq!(text::parse_unsigned("+12", 255), Some(12));
    assert_eq!(text::parse_unsigned("00012", 255), Some(12));
    assert_eq!(text::parse_unsigned("-1", 255), None);
    assert_eq!(text::parse_unsigned("+", 255), None);
    assert_eq!(text::parse_unsigned("", 255), None);
    assert_eq!(text::parse_unsigned("1 ", 255), None);
    assert_eq!(text::parse_unsigned("18446744073709551616", u64::MAX), None);
    assert_eq!(text::parse_signed_32("-2147483648"), Some(i32::MIN));
    assert_eq!(text::parse_signed_32("-2147483649"), None);
    assert_eq!(text::parse_signed_32("2147483647"), Some(i32::MAX));
    assert_eq!(text::parse_signed_32("2147483648"), None);
    assert_eq!(text::parse_signed_32("+5"), Some(5));
    assert_eq!(text::parse_signed_32("-0"), Some(0));
    assert_eq!(text::parse_signed_32("-"), None);
    assert_eq!(text::parse_signed_32("--1"), None);
}

#[test]
fn white_space_is_cut_off_at_both_ends() {
    for s in ["", "  ", "a", " a b\t", "\n\u{a0}x\u{2003}", "\u{3000}y z"] {
        assert_eq!(text::trim(s), s.trim());
        assert_eq!(text::is_empty(s), s.is_empty());
    }
}

#[test]
fn words_are_what_white_space_leaves() {
    for s in ["", "  ", "a", " a  b\tc\n", "\u{85}x\u{2028}y"] {
        let expected: Vec<String> = s.split_whitespace().map(str::to_string).collect();
        assert_eq!(text::split_words(s), expected);
    }
}

#[test]
fn one_more_byte_is_one_more_step_of_the_hash() {
    let shorter = fnv1a_hash64(b"sshd");
    let longer = fnv1a_hash64(b"sshd!");
    assert_eq!(longer, (shorter ^ u64::from(b'!')).wrapping_mul(0x0000_0100_0000_01b3));
}

#[test]
fn a_single_byte_makes_a_difference_to_the_hash() {
    let mut bytes = *b"logsentry";
    let hash = fnv1a_hash64(&bytes);
    for place in 0..bytes.len() {
        for byte in 0..=255u8 {
            let kept = bytes[place];
            bytes[place] = byte;
            assert_eq!(fnv1a_hash64(&bytes) == hash, byte == kept);
            bytes[place] = kept;
        }
    }
}

#[test]
fn masking_again_changes_nothing_on_any_placeholder() {
    let patterns = MaskPatterns::new().expect("patterns compile");
    let line = "(sshd[1234]: 10.0.0.5, fe80::1 00:1a:2b:3c:4d:5e 0xdead /var/log 42. \
        2024-01-02T03:04:05Z 123e4567-e89b-12d3-a456-426614174000 plain ... <x> _a.b-c[7]";
    let once = mask_message(&patterns, line);
    assert_eq!(
        once,
        [
            "(sshd[<PID>]:", "<IPV4>,", "<IPV6>", "<MAC>", "<HEX>", "<PATH>", "<NUM>.",
            "<TIMESTAMP>", "<UUID>", "plain", "...", "<x>", "_a.b-c[<PID>]",
        ]
    );
    assert_eq!(mask_message(&patterns, &once.join(" ")), once);
}

#[test]
fn parts_of_a_line_are_masked_apart() {
    let patterns = MaskPatterns::new().expect("patterns compile");
    let parts = ["", "  ", "port 51422 ", "\tsshd[7]: bye", "10.0.0.5"];
    for a in parts {
        assert_eq!(mask_message(&patterns, a).len(), a.split_whitespace().count());
        for b in parts {
            let mut expected = mask_message(&patterns, a);
            expected.extend(mask_message(&patterns, b));
            assert_eq!(mask_message(&patterns, &format!("{a} {b}")), expected);
        }
    }
}
