use macroman_encode::encode;
use macroman_encode::table::{floor_index, longest_match, KNOWN_SEQUENCES, TABLE_LEN};

fn all_steps(input: &str) -> Vec<(usize, usize, Result<u8, char>)> {
    let mut enc = encode(input);
    let mut out = Vec::new();
    while let Some(step) = enc.next() {
        out.push(step);
    }
    out
}

fn codes(input: &str) -> Vec<Result<u8, char>> {
    all_steps(input).into_iter().map(|(_pos, _len, c)| c).collect()
}

#[test]
fn quebecois_glass() {
    const SRC: &str = "J'peux manger d'la vitre, ça m'fa pas mal.";
    const DST: &[u8] = b"J'peux manger d'la vitre, \x8Da m'fa pas mal.";
    assert_eq!(
        codes(SRC)
            .into_iter()
            .collect::<Result<Vec<u8>, char>>()
            .unwrap(),
        DST
    )
}

#[test]
fn norse_glass() {
    const SRC: &str = "Ek get etið gler án þess að verða sár.";
    const DST: &[u8] = b"Ek get eti@ gler \x87n @ess a@ ver@a s\x87r.";
    assert_eq!(
        codes(SRC)
            .into_iter()
            .map(|x| x.unwrap_or(b'@'))
            .collect::<Vec<u8>>(),
        DST
    )
}

#[test]
fn empty_input_has_no_steps() {
    let mut enc = encode("");
    assert_eq!(enc.next(), None);
    assert_eq!(enc.next(), None);
}

#[test]
fn cafe_composed() {
    assert_eq!(codes("caf\u{00E9}"), vec![Ok(99), Ok(97), Ok(102), Ok(142)]);
    assert_eq!(all_steps("caf\u{00E9}")[3], (3, 2, Ok(142)));
}

#[test]
fn cafe_decomposed() {
    let steps = all_steps("cafe\u{0301}");
    assert_eq!(steps.len(), 4);
    assert_eq!(steps[3], (3, 3, Ok(142)));
    assert_eq!(codes("cafe\u{0301}"), vec![Ok(99), Ok(97), Ok(102), Ok(142)]);
}

#[test]
fn pair_is_one_step() {
    assert_eq!(all_steps("A\u{0300}"), vec![(0, 3, Ok(203))]);
    assert_eq!(all_steps("n\u{0303}o"), vec![(0, 3, Ok(150)), (3, 1, Ok(111))]);
    assert_eq!(all_steps("C\u{0327}"), vec![(0, 3, Ok(130))]);
}

#[test]
fn base_alone_when_mark_has_no_pair() {
    // A base letter whose follower sorts among or after its own marks.
    assert_eq!(
        all_steps("A\u{0304}"),
        vec![(0, 1, Ok(65)), (1, 2, Err('\u{0304}'))]
    );
    assert_eq!(all_steps("a\u{20AC}"), vec![(0, 1, Ok(97)), (1, 3, Ok(219))]);
    assert_eq!(all_steps("e\u{2019}"), vec![(0, 1, Ok(101)), (1, 3, Ok(213))]);
}

#[test]
fn ascii_is_kept() {
    let text = "\u{0000}Hello, World!\n\t~\u{007F}";
    let steps = all_steps(text);
    assert_eq!(steps.len(), text.len());
    for (i, b) in text.bytes().enumerate() {
        assert_eq!(steps[i], (i, 1, Ok(b)));
    }
}

#[test]
fn nul_then_mark() {
    assert_eq!(
        all_steps("\u{0000}\u{0301}"),
        vec![(0, 1, Ok(0)), (1, 2, Err('\u{0301}'))]
    );
}

#[test]
fn unmappable_resumes_at_next_scalar() {
    assert_eq!(
        all_steps("a\u{1F600}b"),
        vec![(0, 1, Ok(97)), (1, 4, Err('\u{1F600}')), (5, 1, Ok(98))]
    );
    assert_eq!(
        all_steps("\u{1F600}\u{1F600}"),
        vec![(0, 4, Err('\u{1F600}')), (4, 4, Err('\u{1F600}'))]
    );
    assert_eq!(all_steps("\u{0301}"), vec![(0, 2, Err('\u{0301}'))]);
}

#[test]
fn shared_codes() {
    assert_eq!(codes("\u{00A4}\u{20AC}"), vec![Ok(219), Ok(219)]);
    assert_eq!(codes("\u{03A9}\u{2126}"), vec![Ok(189), Ok(189)]);
    assert_eq!(codes("\u{F8FF}"), vec![Ok(240)]);
    assert_eq!(codes("\u{FB02}"), vec![Ok(223)]);
}

#[test]
fn spans_cover_input() {
    let text = "Ek get etið gler án þess, e\u{0301}A\u{0304}\u{1F600}\u{F8FF}.";
    let steps = all_steps(text);
    let mut next = 0;
    let mut rebuilt = String::new();
    for (pos, len, _) in &steps {
        assert_eq!(*pos, next);
        assert!(*len >= 1);
        rebuilt.push_str(&text[*pos..*pos + *len]);
        next = pos + len;
    }
    assert_eq!(next, text.len());
    assert_eq!(rebuilt, text);
    assert!(steps.len() <= text.chars().count());
}

#[test]
fn lookup_prefers_longest() {
    assert_eq!(longest_match('e', Some('\u{0301}')), Some((2, 142)));
    assert_eq!(longest_match('e', Some('x')), Some((1, 101)));
    assert_eq!(longest_match('e', None), Some((1, 101)));
    assert_eq!(longest_match('a', Some('\u{20AC}')), Some((1, 97)));
    assert_eq!(longest_match('\u{1F600}', None), None);
    assert_eq!(longest_match('\u{0301}', Some('a')), None);
}

#[test]
fn floor_search() {
    assert_eq!(floor_index('\u{0000}', '\u{0000}'), Some(0));
    assert_eq!(floor_index('\u{10FFFF}', '\u{0000}'), Some(TABLE_LEN - 1));
    let i = floor_index('A', '\u{0304}').unwrap();
    assert_eq!(KNOWN_SEQUENCES[i], ('A', '\u{0303}', 204));
    let j = floor_index('A', '\u{0000}').unwrap();
    assert_eq!(KNOWN_SEQUENCES[j], ('A', '\u{0000}', 65));
}

#[test]
fn table_is_sorted() {
    for w in KNOWN_SEQUENCES.windows(2) {
        assert!((w[0].0, w[0].1) < (w[1].0, w[1].1));
    }
}
