//! Window kernels and what they are made of.

use alyze::uax29::word::ascii_window::{
    class_of, decide_window, decide_window_neon, defers, is_break, CLS_AL, CLS_CR, CLS_LF,
    CLS_MIDAL, CLS_MIDNU, CLS_NU, CLS_SP, CLS_W, WINDOW,
};
use alyze::uax29::word::class::{ascii_custom, ascii_custom_byte, ascii_custom_byte_table};
use alyze::uax29::word::properties::WordBreakProperty::{
    ALetter, CR, ExtendNumLet, LF, MidLetter, MidNum, MidNumLet, Newline, Numeric, Other, SingleQuote, WSegSpace,
};
use alyze::uax29::word::properties::ascii_word_break_prop;
use alyze::uax29::word::simd::{vdupq_n_u8, U8x16};
use alyze::uax29::word::{
    ascii_is_break, load_byte_info, load_table_128, maybe_process_ascii_window,
    maybe_process_ascii_window_neon, maybe_process_ascii_window_neon32, move_nibble_mask, tokenize,
    table_lookup, table_lookup32, Neon, Neon32, Options, Scalar, WindowProcessor, WindowTokens,
};

/// Inputs that isolate one rule each, swept across every window offset so a rule that only fails at
/// the window edge is caught too. The oracle is `tokenize`.
fn check_kernel_rules<P: WindowProcessor>(
    name: &str,
    failures: &mut Vec<String>,
) {
    const CASES: &[(&str, &str)] = &[
        ("WB6/WB7   ALetter x MidLetter x ALetter", "can't stop o'neill won't go now"),
        ("WB6/WB7   MidNumLet between letters", "a.b.c d.e.f g.h.i j.k.l m.n o.p"),
        ("WB11/WB12 Numeric x MidNum x Numeric", "1,234 5.67 89,012 3.4 56,78 9,01"),
        ("WB13a/b   ExtendNumLet adjacency", "foo_bar_baz a1b2c3 x_1 y_2 z_3 w_4"),
        ("WB3       CR x LF", "a\r\nb c\r\nd e\r\nf g\r\nh i\r\nj k\r\nl m"),
        ("WB3d      WSegSpace x WSegSpace", "a  b   c    d  e   f    g  h   i  j"),
        ("mixed     rules meeting at the edge", "ab.cd 12,34 ef_gh  ij\r\nkl mn.op qr,st"),
    ];

    for (rule, body) in CASES {
        let text = format!("{body} {body} {body}");
        let bytes = text.as_bytes();

        let mut is_break = vec![false; text.len() + 1];
        tokenize(&text, Options::default(), |bp, _| {
            is_break[bp] = true;
            true
        });

        let mut processor = P::new();
        let last = bytes.len().saturating_sub(P::WINDOW_SIZE + 4);
        for pos in P::MIN_POS.max(2)..last {
            let Some(got) = processor.process(bytes, pos) else {
                continue;
            };

            let mut want = 0u32;
            for j in 0..P::WINDOW_SIZE {
                if is_break[pos + j] {
                    want |= 1 << j;
                }
            }
            let got = got.breaks as u32;
            if got == want {
                continue;
            }

            let diff = got ^ want;
            let offsets: Vec<usize> =
                (0..P::WINDOW_SIZE).filter(|j| (diff >> j) & 1 == 1).collect();
            let chars: String = offsets.iter().map(|j| bytes[pos + j] as char).collect();
            failures.push(format!(
                "  [{name}] {rule}\n    pos={pos} {:?}\n    dfa  {want:032b}\n    got  {got:032b}\n    differs at offsets {offsets:?} (chars {chars:?})",
                &text[pos..(pos + P::WINDOW_SIZE).min(text.len())]
            ));
            // One report per rule per processor is enough to work from.
            break;
        }
    }
}

#[test]
fn neon_kernel_matches_dfa_rules() {
    let mut failures = Vec::new();
    check_kernel_rules::<Neon>("Neon", &mut failures);
    check_kernel_rules::<Neon32>("Neon32", &mut failures);

    assert!(
        failures.is_empty(),
        "window rules disagree with the DFA:\n{}",
        failures.join("\n")
    );
}

/// Position `p` of 32 bytes occupies nibble `p` counting from the least significant nibble: byte `i`
/// holds position `2i` in its low nibble and position `2i+1` in its high nibble. `lo` carries the low
/// nibble of each class byte and `hi` the high one.
#[test]
fn load_byte_info_packs_register_order() {
    // a A 1 _ . , : ; ' CR LF SP b B 2 c 3 D 4 e 5 F 6 g 7 H 8 i 9 j K -
    let input: &[u8; 32] = &[
        0x61, 0x41, 0x31, 0x5F, 0x2E, 0x2C, 0x3A, 0x3B,
        0x27, 0x0D, 0x0A, 0x20, 0x62, 0x42, 0x32, 0x63,
        0x33, 0x44, 0x34, 0x65, 0x35, 0x46, 0x36, 0x67,
        0x37, 0x48, 0x38, 0x69, 0x39, 0x6A, 0x4B, 0x2D,
    ];

    // The class byte of each input byte, which the packing consumes.
    // bit 0 letter, 1 mid_num, 2 extend, 3 mid_let, 4 numeric, 5 cr, 6 lf, 7 wseg
    const EXPECTED_TOKENS: [u8; 32] = [
        0x05, 0x05, 0x14, 0x04, 0x0A, 0x02, 0x08, 0x02,
        0x0A, 0x20, 0x40, 0x80, 0x05, 0x05, 0x14, 0x05,
        0x14, 0x05, 0x14, 0x05, 0x14, 0x05, 0x14, 0x05,
        0x14, 0x05, 0x14, 0x05, 0x14, 0x05, 0x05, 0x00,
    ];

    const EXPECTED_LO: [u8; 16] = [
        0x55, 0x44, 0x2A, 0x28, 0x0A, 0x00, 0x55, 0x54,
        0x54, 0x54, 0x54, 0x54, 0x54, 0x54, 0x54, 0x05,
    ];

    const EXPECTED_HI: [u8; 16] = [
        0x00, 0x01, 0x00, 0x00, 0x20, 0x84, 0x00, 0x01,
        0x01, 0x01, 0x01, 0x01, 0x01, 0x01, 0x01, 0x00,
    ];

    // Pin the table first: if an entry moves, the packed expectations below are stale and
    // this says so directly rather than surfacing as a confusing packing failure.
    for i in 0..32 {
        assert_eq!(
            ascii_custom_byte(input[i]),
            EXPECTED_TOKENS[i],
            "class byte of {:?} changed; regenerate EXPECTED_LO / EXPECTED_HI",
            input[i] as char
        );
    }

    let (top, bottom) = load_table_128(&ascii_custom_byte_table());

    let (lo, hi) = load_byte_info(top, bottom, input);
    let (got_lo, got_hi) = (lo.0, hi.0);

    // Render each half as aligned rows so the two can be compared by eye, with carets
    // under the lanes that differ.
    let render = |name: &str, got: &[u8; 16], want: &[u8; 16]| -> String {
        let cells = |v: &[u8; 16]| -> String {
            v.iter().map(|b| format!("{b:#04X} ")).collect::<String>()
        };
        let index: String = (0..16).map(|i| format!("{i:>4} ")).collect();
        let marks: String = (0..16)
            .map(|i| if got[i] == want[i] { "     " } else { "  ^^ " })
            .collect();
        format!(
            "  {name} lane {index}\n  {name}  got {}\n  {name} want {}\n  {name}      {marks}",
            cells(got),
            cells(want),
        )
    };

    let wrong = (0..16)
        .filter(|i| got_lo[*i] != EXPECTED_LO[*i] || got_hi[*i] != EXPECTED_HI[*i])
        .count();

    assert!(
        got_lo == EXPECTED_LO && got_hi == EXPECTED_HI,
        "load_byte_info: {wrong} of 16 lanes packed wrong\n{}\n{}",
        render("lo", &got_lo, &EXPECTED_LO),
        render("hi", &got_hi, &EXPECTED_HI),
    );
}

/// Every window offset and every combination of carried context.
#[test]
fn neon_matches_scalar() {
    let alphabet: &[u8] = b"abzAZ09_ .,;:'\"\r\n\t-/\x0b\x0c";
    let mut corpus: Vec<Vec<u8>> = Vec::new();
    let mut seed = 0x2545_F491_4F6C_DD1Du64;
    for _ in 0..300 {
        let mut v = Vec::with_capacity(48);
        for _ in 0..48 {
            seed ^= seed << 13;
            seed ^= seed >> 7;
            seed ^= seed << 17;
            v.push(alphabet[(seed % alphabet.len() as u64) as usize]);
        }
        corpus.push(v);
    }
    corpus.push(b"don't stop 3,000.50 a:b:c snake_case A.B.C   xyz".to_vec());
    // A window containing non-ASCII must be rejected by both.
    corpus.push("aaaaaaaaÉaaaaaaaaaaaaaaaa".as_bytes().to_vec());

    let ctx = [0u8, CLS_W | CLS_AL, CLS_W | CLS_NU, CLS_MIDAL, CLS_SP, CLS_CR];
    for bytes in &corpus {
        for pos in 0..=(bytes.len() - WINDOW) {
            for &pp in &ctx {
                for &p in &ctx {
                    for &n in &ctx {
                        let a = decide_window(bytes, pos, pp, p, n);
                        let b = decide_window_neon(bytes, pos, pp, p, n);
                        match (a, b) {
                            (None, None) => {}
                            (Some(a), Some(b)) => assert_eq!(
                                (a.breaks, a.word_like, a.upper, a.last_class,
                                 a.prev_last_class, a.last_byte, a.prev_last_byte),
                                (b.breaks, b.word_like, b.upper, b.last_class,
                                 b.prev_last_class, b.last_byte, b.prev_last_byte),
                                "pos {pos} pp {pp:#x} p {p:#x} n {n:#x} in {:?}",
                                String::from_utf8_lossy(&bytes[pos..pos + WINDOW]),
                            ),
                            _ => panic!("one path rejected the window, the other did not"),
                        }
                    }
                }
            }
        }
    }
}

/// A letter, a digit, a connector, a space and punctuation in every order of four, and the edges of
/// the text: the rules on properties, on class bytes and on window classes agree.
#[test]
fn rules_agree_on_all_classes() {
    let alphabet: &[u8] = b"aZ0_ \r\n\x0b:.,'\"!";
    for &b2 in alphabet {
        for &b1 in alphabet {
            for &b0 in alphabet {
                for &bn in alphabet {
                    let by_property = ascii_is_break(
                        ascii_word_break_prop(b2),
                        ascii_word_break_prop(b1),
                        ascii_word_break_prop(b0),
                        ascii_word_break_prop(bn),
                    );
                    let by_class = is_break(class_of(b2), class_of(b1), class_of(b0), class_of(bn));
                    assert_eq!(by_property, by_class, "{b2} {b1} {b0} {bn}");
                }
            }
        }
    }
}

#[test]
fn ascii_is_break_known_answers() {
    // Joined.
    assert!(!ascii_is_break(Other, CR, LF, Other));
    assert!(!ascii_is_break(Other, WSegSpace, WSegSpace, Other));
    assert!(!ascii_is_break(Other, ALetter, Numeric, Other));
    assert!(!ascii_is_break(Other, ExtendNumLet, ALetter, Other));
    assert!(!ascii_is_break(Other, ALetter, SingleQuote, ALetter));
    assert!(!ascii_is_break(ALetter, MidLetter, ALetter, Other));
    assert!(!ascii_is_break(Other, Numeric, MidNum, Numeric));
    assert!(!ascii_is_break(Numeric, MidNumLet, Numeric, Other));
    // Apart.
    assert!(ascii_is_break(Other, CR, Newline, Other));
    assert!(ascii_is_break(Other, LF, CR, Other));
    assert!(ascii_is_break(Other, ALetter, SingleQuote, Numeric));
    assert!(ascii_is_break(Numeric, MidLetter, Numeric, Other));
    assert!(ascii_is_break(Other, ALetter, MidNum, ALetter));
    assert!(ascii_is_break(ALetter, Other, ALetter, ALetter));
}

#[test]
fn class_bytes_known_answers() {
    assert_eq!(class_of(b'a'), CLS_W | CLS_AL);
    assert_eq!(class_of(b'7'), CLS_W | CLS_NU);
    assert_eq!(class_of(b'_'), CLS_W);
    assert_eq!(class_of(b' '), CLS_SP);
    assert_eq!(class_of(b'\t'), 0);
    assert_eq!(class_of(b'\r'), CLS_CR);
    assert_eq!(class_of(b'\n'), CLS_LF);
    assert_eq!(class_of(0x0b), 0);
    assert_eq!(class_of(b':'), CLS_MIDAL);
    assert_eq!(class_of(b';'), CLS_MIDNU);
    assert_eq!(class_of(b'.'), CLS_MIDAL | CLS_MIDNU);
    assert_eq!(class_of(b'"'), 0);
    assert_eq!(ascii_custom(b'A'), 0x305);
    assert_eq!(ascii_custom(b'a'), 0x105);
    assert_eq!(ascii_custom(b'5'), 0x114);
    assert_eq!(ascii_custom(b'_'), 0x004);
    assert_eq!(ascii_custom(b'.'), 0x00a);
}

/// A window that would end in a wait is shortened by one byte, and then does not.
#[test]
fn shortened_window_does_not_defer() {
    assert!(defers(class_of(b'a'), class_of(b'.')));
    assert!(defers(class_of(b'1'), class_of(b',')));
    assert!(!defers(class_of(b'a'), class_of(b',')));
    assert!(!defers(class_of(b' '), class_of(b'.')));
    for b2 in 0..128u8 {
        for b1 in 0..128u8 {
            for b0 in 0..128u8 {
                if defers(class_of(b1), class_of(b0)) {
                    assert!(!defers(class_of(b2), class_of(b1)));
                }
            }
        }
    }
}

#[test]
fn decide_window_known_answer() {
    let text = b"don't stop 3,0 X";
    let d = decide_window(text, 0, 0, 0, 0).unwrap();
    // "don't" " " "stop" " " "3,0" " " "X"
    assert_eq!(d.breaks, 0b1100_1100_0110_0001);
    assert_eq!(d.word_like, 0b1010_1011_1101_0111);
    assert_eq!(d.upper, 0b1000_0000_0000_0000);
    assert_eq!(d.last_class, CLS_W | CLS_AL);
    assert_eq!(d.prev_last_class, CLS_SP);
    assert_eq!((d.last_byte, d.prev_last_byte), (b'X', b' '));
}

#[test]
fn decide_window_rejects_short_and_non_ascii() {
    let short = b"fifteen bytes..";
    assert_eq!(short.len(), WINDOW - 1);
    assert!(decide_window(short, 0, 0, 0, 0).is_none());
    assert!(decide_window_neon(short, 0, 0, 0, 0).is_none());
    assert!(decide_window(short, usize::MAX, 0, 0, 0).is_none());
    assert!(decide_window_neon(short, usize::MAX, 0, 0, 0).is_none());
    let other = "aaaaaaa\u{e9}aaaaaaaa".as_bytes();
    assert!(decide_window(other, 0, 0, 0, 0).is_none());
    assert!(decide_window_neon(other, 0, 0, 0, 0).is_none());
}

/// The byte behind the window matters only where the window ends in a wait.
#[test]
fn byte_behind_window_matters_in_a_wait() {
    let waits = b"aaaaaaaaaaaaaaa.";
    let joined = decide_window(waits, 0, 0, 0, class_of(b'b')).unwrap();
    let apart = decide_window(waits, 0, 0, 0, class_of(b' ')).unwrap();
    assert_eq!(joined.breaks, 1);
    assert_eq!(apart.breaks, 1 | 1 << 15);
    let plain = b"aaaaaaaaaaaaaa .";
    let n1 = decide_window(plain, 0, 0, 0, class_of(b'b')).unwrap();
    let n2 = decide_window(plain, 0, 0, 0, class_of(b' ')).unwrap();
    assert_eq!(n1, n2);
}

#[test]
fn move_nibble_mask_known_answers() {
    assert_eq!(move_nibble_mask(vdupq_n_u8(0)), 0);
    assert_eq!(move_nibble_mask(vdupq_n_u8(0x11)), 0xFFFF_FFFF);
    assert_eq!(move_nibble_mask(vdupq_n_u8(0x01)), 0x5555_5555);
    assert_eq!(move_nibble_mask(vdupq_n_u8(0x10)), 0xAAAA_AAAA);
    let mut lanes = [0u8; 16];
    lanes[1] = 0x10;
    lanes[15] = 0x01;
    assert_eq!(move_nibble_mask(U8x16(lanes)), 1 << 3 | 1 << 30);
}

#[test]
fn table_lookup_known_answers() {
    let (top, bottom) = load_table_128(&ascii_custom_byte_table());
    let bytes = b"aA1_.,:;'\r\n b-\x80\xff";
    let looked_up = table_lookup32(top, bottom, bytes);
    assert_eq!(
        looked_up.0,
        [0x05, 0x05, 0x14, 0x04, 0x0A, 0x02, 0x08, 0x02, 0x0A, 0x20, 0x40, 0x80, 0x05, 0, 0, 0]
    );
    let (lo, hi) = table_lookup(top, bottom, bytes);
    assert_eq!(lo.0[..8], [0x55, 0x44, 0x2A, 0x28, 0x0A, 0x00, 0x05, 0x00]);
    assert_eq!(lo.0[..8], lo.0[8..]);
    assert_eq!(hi.0[..8], [0x00, 0x01, 0x00, 0x00, 0x20, 0x84, 0x00, 0x00]);
    assert_eq!(hi.0[..8], hi.0[8..]);
}

/// What is the case in a window, byte by byte.
fn expected(text: &str, pos: usize, width: usize) -> WindowTokens {
    let mut w = WindowTokens {
        breaks: 0,
        word_like: 0,
        ascii_upper: 0,
    };
    tokenize(text, Options::default(), |bp, _| {
        if pos <= bp && bp < pos + width {
            w.breaks |= 1 << (bp - pos);
        }
        true
    });
    for i in 0..width {
        let b = text.as_bytes()[pos + i];
        if b.is_ascii_alphanumeric() {
            w.word_like |= 1 << i;
        }
        if b.is_ascii_uppercase() {
            w.ascii_upper |= 1 << i;
        }
    }
    w
}

fn check_masks<P: WindowProcessor>(text: &str) {
    let mut processor = P::new();
    for pos in P::MIN_POS..text.len() - P::WINDOW_SIZE {
        let want = expected(text, pos, P::WINDOW_SIZE);
        assert_eq!(processor.process(text.as_bytes(), pos), Some(want), "{pos} {text:?}");
    }
    // Windows one behind the other, which may share their context.
    let mut processor = P::new();
    let mut pos = P::MIN_POS;
    while pos + P::WINDOW_SIZE < text.len() {
        let want = expected(text, pos, P::WINDOW_SIZE);
        assert_eq!(processor.process(text.as_bytes(), pos), Some(want), "{pos} {text:?}");
        pos += P::WINDOW_SIZE;
    }
}

/// All three masks, per position, at every offset.
#[test]
fn masks_match_text_at_every_offset() {
    for body in [
        "the Quick brown Fox jumps over the lazy Dog again now",
        "A1 b2 C3 d4 E5 f6 G7 h8 I9 j0 K1 l2 M3 n4 O5 p6 Q7 r8 S9",
        "can't stop o'neill won't go now 1,234 5.67 89,012 3.4 56,78",
        "a\r\nb c\r\nd e  f   g_h \x0b\x0c\t!\"#:;.,' Z",
    ] {
        let text = format!("{body} {body}");
        check_masks::<Scalar>(&text);
        check_masks::<Neon>(&text);
        check_masks::<Neon32>(&text);
    }
}

/// One byte that is not ASCII, anywhere from two before a window to one behind it, rejects it.
#[test]
fn windows_reject_non_ascii() {
    let (top, bottom) = load_table_128(&ascii_custom_byte_table());
    let clean = vec![b'a'; 64];
    let pos = 20;
    let prev = table_lookup(top, bottom, &clean[pos - 16..pos]);
    for at in 0..64 {
        let mut bytes = clean.clone();
        bytes[at] = 0xE9;
        let near16 = at + 2 >= pos && at <= pos + 16;
        let near29 = at + 2 >= pos && at <= pos + 29;
        assert_eq!(maybe_process_ascii_window(&bytes, pos).is_none(), near16, "{at}");
        assert_eq!(
            maybe_process_ascii_window_neon(&bytes, pos, top, bottom, prev.0, prev.1).is_none(),
            near16,
            "{at}"
        );
        assert_eq!(
            maybe_process_ascii_window_neon32(&bytes, pos, top, bottom).is_none(),
            near29,
            "{at}"
        );
    }
}

/// What one window hands to the next is the next one's left context.
#[test]
fn neon_window_hands_over_its_classes() {
    let (top, bottom) = load_table_128(&ascii_custom_byte_table());
    let text = b"one Two 3,4 don't   five_six: seven 8.9 ten eleven";
    let prev = table_lookup(top, bottom, &text[0..16]);
    let first = maybe_process_ascii_window_neon(text, 16, top, bottom, prev.0, prev.1).unwrap();
    let looked_up = table_lookup(top, bottom, &text[16..32]);
    assert_eq!((first.current_lo, first.current_hi), looked_up);
    assert_eq!(first.breaks, maybe_process_ascii_window(text, 16).unwrap().breaks);
}

/// Sizes of the windows, and the breaks of one window of each size.
#[test]
fn processors_known_answers() {
    assert_eq!((Scalar::MIN_POS, Scalar::WINDOW_SIZE), (2, 16));
    assert_eq!((Neon::MIN_POS, Neon::WINDOW_SIZE), (16, 16));
    assert_eq!((Neon32::MIN_POS, Neon32::WINDOW_SIZE), (2, 29));
    // Breakpoints: 0, 5, 6, 10, 11, 18, 19, 24, 25, 27, 28, 31, 32.
    let text = b"can't stop o'neill won't go now ";
    assert_eq!(Neon32::new().process(text, 2).unwrap().breaks, 0x06C3_0318);
    assert_eq!(Scalar::new().process(text, 2).unwrap().breaks, 0x0318);
    // From byte 16 on, with one more byte behind the window.
    let text = b"can't stop o'neill won't go now !";
    assert_eq!(Neon::new().process(text, 16).unwrap().breaks, 0x9B0C);
}

/// Decisions with the classes of the bytes around the window, from the start of a text to its end.
#[test]
fn decisions_match_text_at_every_offset() {
    for text in [
        "can't stop o'neill won't go now 1,234 5.67 89,012 3.4 56,78",
        "a\r\nb c\r\nd e  f   g_h \x0b\x0c\t!\"#:;.,' Z",
    ] {
        let bytes = text.as_bytes();
        let class_at = |at: usize| bytes.get(at).map_or(0, |&b| class_of(b));
        for pos in 0..=bytes.len() - WINDOW {
            let pp = class_at(pos.wrapping_sub(2));
            let p = class_at(pos.wrapping_sub(1));
            let n = class_at(pos + WINDOW);
            let want = expected(text, pos, WINDOW).breaks;
            let scalar = decide_window(bytes, pos, pp, p, n).unwrap();
            let vector = decide_window_neon(bytes, pos, pp, p, n).unwrap();
            assert_eq!(u32::from(scalar.breaks), want, "{pos} {text:?}");
            assert_eq!(scalar, vector, "{pos} {text:?}");
        }
    }
}
