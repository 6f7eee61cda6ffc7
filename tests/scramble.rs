use cube_tui::scramble::{to_notation, Face, Move, Scrambler, Turn, SCRAMBLE_LEN};

fn axis(f: Face) -> u8 {
    match f {
        Face::Up | Face::Down => 0,
        Face::Left | Face::Right => 1,
        Face::Front | Face::Back => 2,
    }
}

fn check_valid(s: &[Move]) {
    for i in 1..s.len() {
        assert_ne!(s[i].face, s[i - 1].face);
        if i >= 2 {
            let a = axis(s[i].face);
            assert!(!(a == axis(s[i - 1].face) && a == axis(s[i - 2].face)));
        }
    }
}

#[test]
fn generated_scrambles_are_valid() {
    let mut g = Scrambler::new(42);
    for _ in 0..1000 {
        let s = g.generate();
        assert_eq!(s.len(), SCRAMBLE_LEN);
        check_valid(&s);
    }
}

#[test]
fn fixed_seed_is_deterministic() {
    let mut a = Scrambler::new(7);
    let mut b = Scrambler::new(7);
    for _ in 0..10_000 {
        assert_eq!(a.generate(), b.generate());
    }
    assert_ne!(Scrambler::new(7).generate(), Scrambler::new(8).generate());
}

#[test]
fn notation_text() {
    let moves = vec![
        Move { face: Face::Right, turn: Turn::Single },
        Move { face: Face::Up, turn: Turn::Double },
        Move { face: Face::Front, turn: Turn::Inverse },
    ];
    assert_eq!(to_notation(&moves), "R U2 F'");
    assert_eq!(to_notation(&vec![]), "");
    let s = to_notation(&Scrambler::new(1).generate());
    assert_eq!(s.split(' ').count(), SCRAMBLE_LEN);
}
