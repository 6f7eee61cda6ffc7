//! Scramble generation: random face turns in which no move repeats the face
//! of the one before, and no three moves in a row turn faces of one axis.
use vstd::prelude::*;
use vstd::string::*;

verus! {

/// Number of moves in a scramble.
pub const SCRAMBLE_LEN: usize = 20;

/// Draws made for one move before falling back to a neighbouring face.
pub const MAX_TRIES: u64 = 16;

/// Multiplier of the linear congruential generator.
pub const LCG_MUL: u64 = 6364136223846793005;

/// Increment of the linear congruential generator.
pub const LCG_INC: u64 = 1442695040888963407;

/// The low bits of a generator state that a draw discards.
pub const DRAW_SHIFT: u64 = 0x2_0000_0000;

#[derive(Clone, Copy, Debug, PartialEq, Eq, Structural)]
pub enum Face {
    Up,
    Down,
    Left,
    Right,
    Front,
    Back,
}

/// Quarter turn, half turn or inverse quarter turn.
#[derive(Clone, Copy, Debug, PartialEq, Eq, Structural)]
pub enum Turn {
    Single,
    Double,
    Inverse,
}

#[derive(Clone, Copy, Debug, PartialEq, Eq, Structural)]
pub struct Move {
    pub face: Face,
    pub turn: Turn,
}

/// The face with index `i` in the order U, D, L, R, F, B.
pub open spec fn face_of(i: int) -> Face {
    if i == 0 {
        Face::Up
    } else if i == 1 {
        Face::Down
    } else if i == 2 {
        Face::Left
    } else if i == 3 {
        Face::Right
    } else if i == 4 {
        Face::Front
    } else {
        Face::Back
    }
}

pub open spec fn face_index(f: Face) -> int {
    match f {
        Face::Up => 0,
        Face::Down => 1,
        Face::Left => 2,
        Face::Right => 3,
        Face::Front => 4,
        Face::Back => 5,
    }
}

/// Opposite faces share an axis.
pub open spec fn axis(f: Face) -> int {
    match f {
        Face::Up | Face::Down => 0,
        Face::Left | Face::Right => 1,
        Face::Front | Face::Back => 2,
    }
}

pub open spec fn turn_of(i: int) -> Turn {
    if i == 0 {
        Turn::Single
    } else if i == 1 {
        Turn::Double
    } else {
        Turn::Inverse
    }
}

/// A move on face `f` may follow `s`: it does not turn the face of the last
/// move, and does not make a third move in a row on one axis.
pub open spec fn allowed(s: Seq<Move>, f: Face) -> bool {
    &&& (s.len() >= 1 ==> s[s.len() - 1].face != f)
    &&& !(s.len() >= 2 && axis(s[s.len() - 1].face) == axis(f) && axis(s[s.len() - 2].face)
        == axis(f))
}

/// The move at position `i` of `s` may follow the moves before it.
pub open spec fn step_ok(s: Seq<Move>, i: int) -> bool {
    allowed(s.subrange(0, i), s[i].face)
}

/// Every move of `s` may follow the moves before it.
pub open spec fn valid_scramble(s: Seq<Move>) -> bool {
    forall|i: int| 0 <= i < s.len() ==> #[trigger] step_ok(s, i)
}

/// The generator state after one step.
pub open spec fn next_state(st: u64) -> u64 {
    st.wrapping_mul(LCG_MUL).wrapping_add(LCG_INC)
}

/// The move that a generator state stands for.
pub open spec fn move_from(st: u64) -> Move {
    let x = st / DRAW_SHIFT;
    Move { face: face_of((x % 6) as int), turn: turn_of(((x / 6) % 3) as int) }
}

/// The face tried when every draw for a move was refused: the next face in
/// index order if it may follow, else the one after.
pub open spec fn fallback_face(s: Seq<Move>, f: Face) -> Face {
    let a = face_of((face_index(f) + 1) % 6);
    if allowed(s, a) {
        a
    } else {
        face_of((face_index(f) + 2) % 6)
    }
}

/// The move chosen after `s` from state `st` with `tries` draws left, and the
/// state after it: draws are made until one may follow `s`.
pub open spec fn pick(s: Seq<Move>, st: u64, tries: nat) -> (Move, u64)
    decreases tries,
{
    let n = next_state(st);
    let m = move_from(n);
    if allowed(s, m.face) {
        (m, n)
    } else if tries <= 1 {
        (Move { face: fallback_face(s, m.face), turn: m.turn }, n)
    } else {
        pick(s, n, (tries - 1) as nat)
    }
}

/// The first `k` moves generated from state `seed`, and the state after them.
pub open spec fn generated(seed: u64, k: nat) -> (Seq<Move>, u64)
    decreases k,
{
    if k == 0 {
        (Seq::empty(), seed)
    } else {
        let (s, st) = generated(seed, (k - 1) as nat);
        let (m, n) = pick(s, st, MAX_TRIES as nat);
        (s.push(m), n)
    }
}

proof fn lemma_fallback_allowed(s: Seq<Move>, f: Face)
    requires
        !allowed(s, f),
    ensures
        allowed(s, fallback_face(s, f)),
{
    let last = s[s.len() - 1].face;
    assert(axis(last) == axis(f));
    let a = face_of((face_index(f) + 1) % 6);
    let b = face_of((face_index(f) + 2) % 6);
    assert(face_index(a) == (face_index(f) + 1) % 6);
    assert(face_index(b) == (face_index(f) + 2) % 6);
    if axis(a) == axis(f) {
        assert(axis(b) != axis(last));
    } else {
        assert(allowed(s, a));
    }
}

proof fn lemma_pick_allowed(s: Seq<Move>, st: u64, tries: nat)
    ensures
        allowed(s, pick(s, st, tries).0.face),
    decreases tries,
{
    let n = next_state(st);
    let m = move_from(n);
    if !allowed(s, m.face) {
        if tries <= 1 {
            lemma_fallback_allowed(s, m.face);
        } else {
            lemma_pick_allowed(s, n, (tries - 1) as nat);
        }
    }
}

proof fn lemma_push_valid(s: Seq<Move>, m: Move)
    requires
        valid_scramble(s),
        allowed(s, m.face),
    ensures
        valid_scramble(s.push(m)),
{
    let t = s.push(m);
    assert forall|i: int| 0 <= i < t.len() implies #[trigger] step_ok(t, i) by {
        assert(t.subrange(0, i) =~= s.subrange(0, i));
        if i < s.len() {
            assert(step_ok(s, i));
        } else {
            assert(t.subrange(0, i) =~= s);
        }
    }
}

/// Every generated prefix is a valid scramble of its length.
pub proof fn lemma_generated_valid(seed: u64, k: nat)
    ensures
        generated(seed, k).0.len() == k,
        valid_scramble(generated(seed, k).0),
    decreases k,
{
    if k > 0 {
        lemma_generated_valid(seed, (k - 1) as nat);
        let (s, st) = generated(seed, (k - 1) as nat);
        let m = pick(s, st, MAX_TRIES as nat).0;
        lemma_pick_allowed(s, st, MAX_TRIES as nat);
        lemma_push_valid(s, m);
    }
}

fn face_from_index(i: u64) -> (f: Face)
    requires
        i < 6,
    ensures
        f == face_of(i as int),
        face_index(f) == i,
{
    if i == 0 {
        Face::Up
    } else if i == 1 {
        Face::Down
    } else if i == 2 {
        Face::Left
    } else if i == 3 {
        Face::Right
    } else if i == 4 {
        Face::Front
    } else {
        Face::Back
    }
}

fn index_of_face(f: Face) -> (i: u64)
    ensures
        i == face_index(f),
{
    match f {
        Face::Up => 0,
        Face::Down => 1,
        Face::Left => 2,
        Face::Right => 3,
        Face::Front => 4,
        Face::Back => 5,
    }
}

fn axis_of(f: Face) -> (r: u64)
    ensures
        r == axis(f),
{
    match f {
        Face::Up | Face::Down => 0,
        Face::Left | Face::Right => 1,
        Face::Front | Face::Back => 2,
    }
}

fn may_follow(s: &Vec<Move>, f: Face) -> (r: bool)
    ensures
        r == allowed(s@, f),
{
    let n = s.len();
    if n >= 1 && s[n - 1].face == f {
        return false;
    }
    if n >= 2 {
        let a = axis_of(f);
        if axis_of(s[n - 1].face) == a && axis_of(s[n - 2].face) == a {
            return false;
        }
    }
    true
}

fn decode(st: u64) -> (m: Move)
    ensures
        m == move_from(st),
{
    let x = st / DRAW_SHIFT;
    let t = (x / 6) % 3;
    let turn = if t == 0 {
        Turn::Single
    } else if t == 1 {
        Turn::Double
    } else {
        Turn::Inverse
    };
    Move { face: face_from_index(x % 6), turn }
}

/// A seeded source of scrambles.
pub struct Scrambler {
    pub state: u64,
}

impl Scrambler {
    /// A generator started from `seed`; equal seeds give equal scrambles.
    pub fn new(seed: u64) -> (r: Scrambler)
        ensures
            r.state == seed,
    {
        Scrambler { state: seed }
    }

    fn pick_move(&mut self, s: &Vec<Move>) -> (m: Move)
        ensures
            (m, final(self).state) == pick(s@, old(self).state, MAX_TRIES as nat),
    {
        let mut tries: u64 = MAX_TRIES;
        loop
            invariant
                1 <= tries <= MAX_TRIES,
                pick(s@, self.state, tries as nat) == pick(s@, old(self).state, MAX_TRIES as nat),
            decreases tries,
        {
            let n = self.state.wrapping_mul(LCG_MUL).wrapping_add(LCG_INC);
            let m = decode(n);
            self.state = n;
            if may_follow(s, m.face) {
                return m;
            }
            if tries == 1 {
                let a = face_from_index((index_of_face(m.face) + 1) % 6);
                let face = if may_follow(s, a) {
                    a
                } else {
                    face_from_index((index_of_face(m.face) + 2) % 6)
                };
                return Move { face, turn: m.turn };
            }
            tries = tries - 1;
        }
    }

    /// The next scramble: `SCRAMBLE_LEN` moves, each drawn until it may
    /// follow the moves before it.
    pub fn generate(&mut self) -> (r: Vec<Move>)
        ensures
            (r@, final(self).state) == generated(old(self).state, SCRAMBLE_LEN as nat),
            r@.len() == SCRAMBLE_LEN,
            valid_scramble(r@),
    {
        let mut moves: Vec<Move> = Vec::new();
        let mut k: usize = 0;
        while k < SCRAMBLE_LEN
            invariant
                k <= SCRAMBLE_LEN,
                (moves@, self.state) == generated(old(self).state, k as nat),
            decreases SCRAMBLE_LEN - k,
        {
            let m = self.pick_move(&moves);
            moves.push(m);
            k = k + 1;
        }
        proof {
            lemma_generated_valid(old(self).state, SCRAMBLE_LEN as nat);
        }
        moves
    }
}

/// In a valid scramble no move turns the face of the move before it, and no
/// three moves in a row turn faces of one axis.
pub proof fn lemma_valid_adjacency(s: Seq<Move>, i: int)
    requires
        valid_scramble(s),
        1 <= i < s.len(),
    ensures
        s[i].face != s[i - 1].face,
        i >= 2 ==> !(axis(s[i].face) == axis(s[i - 1].face) && axis(s[i].face) == axis(
            s[i - 2].face,
        )),
{
    assert(step_ok(s, i));
    let p = s.subrange(0, i);
    assert(p[p.len() - 1] == s[i - 1]);
    if i >= 2 {
        assert(p[p.len() - 2] == s[i - 2]);
    }
}

/// The letter of a face.
pub open spec fn face_text(f: Face) -> Seq<char> {
    match f {
        Face::Up => seq!['U'],
        Face::Down => seq!['D'],
        Face::Left => seq!['L'],
        Face::Right => seq!['R'],
        Face::Front => seq!['F'],
        Face::Back => seq!['B'],
    }
}

/// The suffix of a turn: none, `2` or `'`.
pub open spec fn turn_text(t: Turn) -> Seq<char> {
    match t {
        Turn::Single => Seq::empty(),
        Turn::Double => seq!['2'],
        Turn::Inverse => seq!['\''],
    }
}

/// The usual notation of a sequence of moves, separated by single spaces.
pub open spec fn notation(s: Seq<Move>) -> Seq<char>
    decreases s.len(),
{
    if s.len() == 0 {
        Seq::empty()
    } else if s.len() == 1 {
        face_text(s[0].face) + turn_text(s[0].turn)
    } else {
        notation(s.drop_last()) + seq![' '] + face_text(s.last().face) + turn_text(s.last().turn)
    }
}

fn face_str(f: Face) -> (r: &'static str)
    ensures
        r@ == face_text(f),
{
    match f {
        Face::Up => {
            proof {
                reveal_strlit("U");
            }
            "U"
        },
        Face::Down => {
            proof {
                reveal_strlit("D");
            }
            "D"
        },
        Face::Left => {
            proof {
                reveal_strlit("L");
            }
            "L"
        },
        Face::Right => {
            proof {
                reveal_strlit("R");
            }
            "R"
        },
        Face::Front => {
            proof {
                reveal_strlit("F");
            }
            "F"
        },
        Face::Back => {
            proof {
                reveal_strlit("B");
            }
            "B"
        },
    }
}

fn turn_str(t: Turn) -> (r: &'static str)
    ensures
        r@ == turn_text(t),
{
    match t {
        Turn::Single => {
            proof {
                reveal_strlit("");
            }
            ""
        },
        Turn::Double => {
            proof {
                reveal_strlit("2");
            }
            "2"
        },
        Turn::Inverse => {
            proof {
                reveal_strlit("'");
            }
            "'"
        },
    }
}

/// Writes moves in the usual notation, such as `R U2 F'`.
pub fn to_notation(moves: &Vec<Move>) -> (r: String)
    ensures
        r@ == notation(moves@),
{
    let mut out = String::new();
    let mut i: usize = 0;
    while i < moves.len()
        invariant
            i <= moves.len(),
            out@ == notation(moves@.subrange(0, i as int)),
        decreases moves.len() - i,
    {
        let ghost prev = moves@.subrange(0, i as int);
        let ghost next = moves@.subrange(0, i as int + 1);
        proof {
            assert(next.drop_last() =~= prev);
        }
        if i > 0 {
            proof {
                reveal_strlit(" ");
            }
            out.append(" ");
        }
        out.append(face_str(moves[i].face));
        out.append(turn_str(moves[i].turn));
        assert(out@ =~= notation(next));
        i = i + 1;
    }
    assert(moves@.subrange(0, i as int) =~= moves@);
    out
}

} // verus!
