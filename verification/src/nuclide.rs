//! Nuclide identities: element symbols, mass numbers, isomeric states,
//! and the `Sym-A[letter]` spelling used by the EPA dose tables.

use vstd::prelude::*;
use crate::ascii::{is_upper_char, is_lower_char, lower_char, to_lower_char};


verus! {

/// Element symbols by atomic number (entry `z - 1`); a blank second
/// character marks a one-letter symbol.
pub const ELEMENT_SYMBOLS: [[char; 2]; 118] = [
    ['H', ' '], ['H', 'e'], ['L', 'i'], ['B', 'e'], ['B', ' '], ['C', ' '], ['N', ' '], ['O', ' '],
    ['F', ' '], ['N', 'e'], ['N', 'a'], ['M', 'g'], ['A', 'l'], ['S', 'i'], ['P', ' '], ['S', ' '],
    ['C', 'l'], ['A', 'r'], ['K', ' '], ['C', 'a'], ['S', 'c'], ['T', 'i'], ['V', ' '], ['C', 'r'],
    ['M', 'n'], ['F', 'e'], ['C', 'o'], ['N', 'i'], ['C', 'u'], ['Z', 'n'], ['G', 'a'], ['G', 'e'],
    ['A', 's'], ['S', 'e'], ['B', 'r'], ['K', 'r'], ['R', 'b'], ['S', 'r'], ['Y', ' '], ['Z', 'r'],
    ['N', 'b'], ['M', 'o'], ['T', 'c'], ['R', 'u'], ['R', 'h'], ['P', 'd'], ['A', 'g'], ['C', 'd'],
    ['I', 'n'], ['S', 'n'], ['S', 'b'], ['T', 'e'], ['I', ' '], ['X', 'e'], ['C', 's'], ['B', 'a'],
    ['L', 'a'], ['C', 'e'], ['P', 'r'], ['N', 'd'], ['P', 'm'], ['S', 'm'], ['E', 'u'], ['G', 'd'],
    ['T', 'b'], ['D', 'y'], ['H', 'o'], ['E', 'r'], ['T', 'm'], ['Y', 'b'], ['L', 'u'], ['H', 'f'],
    ['T', 'a'], ['W', ' '], ['R', 'e'], ['O', 's'], ['I', 'r'], ['P', 't'], ['A', 'u'], ['H', 'g'],
    ['T', 'l'], ['P', 'b'], ['B', 'i'], ['P', 'o'], ['A', 't'], ['R', 'n'], ['F', 'r'], ['R', 'a'],
    ['A', 'c'], ['T', 'h'], ['P', 'a'], ['U', ' '], ['N', 'p'], ['P', 'u'], ['A', 'm'], ['C', 'm'],
    ['B', 'k'], ['C', 'f'], ['E', 's'], ['F', 'm'], ['M', 'd'], ['N', 'o'], ['L', 'r'], ['R', 'f'],
    ['D', 'b'], ['S', 'g'], ['B', 'h'], ['H', 's'], ['M', 't'], ['D', 's'], ['R', 'g'], ['C', 'n'],
    ['N', 'h'], ['F', 'l'], ['M', 'c'], ['L', 'v'], ['T', 's'], ['O', 'g'],
];

/// Highest atomic number with a symbol.
pub const MAX_Z: u32 = 118;

/// Highest mass number a nuclide identity can carry.
pub const MAX_A: u32 = 999;

/// Isomer designator letters in state order (`m` is state 1): the
/// `mnopqrstuvxyz` convention, which skips `w`.
pub const ISOMER_LETTERS: [char; 13] = ['m', 'n', 'o', 'p', 'q', 'r', 's', 't', 'u', 'v', 'x', 'y', 'z'];

/// The symbol of element `z` (`1 <= z <= 118`).
pub open spec fn element_symbol(z: int) -> Seq<char> {
    let e = ELEMENT_SYMBOLS[z - 1];
    if e[1] == ' ' {
        seq![e[0]]
    } else {
        seq![e[0], e[1]]
    }
}

/// `z` is the atomic number whose symbol is exactly `sym`.
pub open spec fn is_z_of(sym: Seq<char>, z: int) -> bool {
    &&& 1 <= z <= 118
    &&& element_symbol(z) == sym
    &&& forall|w: int| 1 <= w < z ==> element_symbol(w) != sym
}

/// Atomic number of an exactly spelled element symbol.
pub open spec fn element_z(sym: Seq<char>) -> Option<int> {
    if exists|z: int| is_z_of(sym, z) {
        Some(choose|z: int| is_z_of(sym, z))
    } else {
        None
    }
}

proof fn lemma_is_z_of_unique(sym: Seq<char>, z1: int, z2: int)
    requires
        is_z_of(sym, z1),
        is_z_of(sym, z2),
    ensures
        z1 == z2,
{
    if z1 < z2 {
        assert(element_symbol(z1) == sym);
    } else if z2 < z1 {
        assert(element_symbol(z2) == sym);
    }
}

/// Atomic number whose table entry is the pair `(c0, c1)`, 0 when none
/// is: the table read backwards, letter by letter.
spec fn pair_z(c0: char, c1: char) -> int {
    if c0 == 'A' {
        if c1 == 'l' {
            13
        } else if c1 == 'r' {
            18
        } else if c1 == 's' {
            33
        } else if c1 == 'g' {
            47
        } else if c1 == 'u' {
            79
        } else if c1 == 't' {
            85
        } else if c1 == 'c' {
            89
        } else if c1 == 'm' {
            95
        } else {
            0
        }
    } else if c0 == 'B' {
        if c1 == 'e' {
            4
        } else if c1 == ' ' {
            5
        } else if c1 == 'r' {
            35
        } else if c1 == 'a' {
            56
        } else if c1 == 'i' {
            83
        } else if c1 == 'k' {
            97
        } else if c1 == 'h' {
            107
        } else {
            0
        }
    } else if c0 == 'C' {
        if c1 == ' ' {
            6
        } else if c1 == 'l' {
            17
        } else if c1 == 'a' {
            20
        } else if c1 == 'r' {
            24
        } else if c1 == 'o' {
            27
        } else if c1 == 'u' {
            29
        } else if c1 == 'd' {
            48
        } else if c1 == 's' {
            55
        } else if c1 == 'e' {
            58
        } else if c1 == 'm' {
            96
        } else if c1 == 'f' {
            98
        } else if c1 == 'n' {
            112
        } else {
            0
        }
    } else if c0 == 'D' {
        if c1 == 'y' {
            66
        } else if c1 == 'b' {
            105
        } else if c1 == 's' {
            110
        } else {
            0
        }
    } else if c0 == 'E' {
        if c1 == 'u' {
            63
        } else if c1 == 'r' {
            68
        } else if c1 == 's' {
            99
        } else {
            0
        }
    } else if c0 == 'F' {
        if c1 == ' ' {
            9
        } else if c1 == 'e' {
            26
        } else if c1 == 'r' {
            87
        } else if c1 == 'm' {
            100
        } else if c1 == 'l' {
            114
        } else {
            0
        }
    } else if c0 == 'G' {
        if c1 == 'a' {
            31
        } else if c1 == 'e' {
            32
        } else if c1 == 'd' {
            64
        } else {
            0
        }
    } else if c0 == 'H' {
        if c1 == ' ' {
            1
        } else if c1 == 'e' {
            2
        } else if c1 == 'o' {
            67
        } else if c1 == 'f' {
            72
        } else if c1 == 'g' {
            80
        } else if c1 == 's' {
            108
        } else {
            0
        }
    } else if c0 == 'I' {
        if c1 == 'n' {
            49
        } else if c1 == ' ' {
            53
        } else if c1 == 'r' {
            77
        } else {
            0
        }
    } else if c0 == 'K' {
        if c1 == ' ' {
            19
        } else if c1 == 'r' {
            36
        } else {
            0
        }
    } else if c0 == 'L' {
        if c1 == 'i' {
            3
        } else if c1 == 'a' {
            57
        } else if c1 == 'u' {
            71
        } else if c1 == 'r' {
            103
        } else if c1 == 'v' {
            116
        } else {
            0
        }
    } else if c0 == 'M' {
        if c1 == 'g' {
            12
        } else if c1 == 'n' {
            25
        } else if c1 == 'o' {
            42
        } else if c1 == 'd' {
            101
        } else if c1 == 't' {
            109
        } else if c1 == 'c' {
            115
        } else {
            0
        }
    } else if c0 == 'N' {
        if c1 == ' ' {
            7
        } else if c1 == 'e' {
            10
        } else if c1 == 'a' {
            11
        } else if c1 == 'i' {
            28
        } else if c1 == 'b' {
            41
        } else if c1 == 'd' {
            60
        } else if c1 == 'p' {
            93
        } else if c1 == 'o' {
            102
        } else if c1 == 'h' {
            113
        } else {
            0
        }
    } else if c0 == 'O' {
        if c1 == ' ' {
            8
        } else if c1 == 's' {
            76
        } else if c1 == 'g' {
            118
        } else {
            0
        }
    } else if c0 == 'P' {
        if c1 == ' ' {
            15
        } else if c1 == 'd' {
            46
        } else if c1 == 'r' {
            59
        } else if c1 == 'm' {
            61
        } else if c1 == 't' {
            78
        } else if c1 == 'b' {
            82
        } else if c1 == 'o' {
            84
        } else if c1 == 'a' {
            91
        } else if c1 == 'u' {
            94
        } else {
            0
        }
    } else if c0 == 'R' {
        if c1 == 'b' {
            37
        } else if c1 == 'u' {
            44
        } else if c1 == 'h' {
            45
        } else if c1 == 'e' {
            75
        } else if c1 == 'n' {
            86
        } else if c1 == 'a' {
            88
        } else if c1 == 'f' {
            104
        } else if c1 == 'g' {
            111
        } else {
            0
        }
    } else if c0 == 'S' {
        if c1 == 'i' {
            14
        } else if c1 == ' ' {
            16
        } else if c1 == 'c' {
            21
        } else if c1 == 'e' {
            34
        } else if c1 == 'r' {
            38
        } else if c1 == 'n' {
            50
        } else if c1 == 'b' {
            51
        } else if c1 == 'm' {
            62
        } else if c1 == 'g' {
            106
        } else {
            0
        }
    } else if c0 == 'T' {
        if c1 == 'i' {
            22
        } else if c1 == 'c' {
            43
        } else if c1 == 'e' {
            52
        } else if c1 == 'b' {
            65
        } else if c1 == 'm' {
            69
        } else if c1 == 'a' {
            73
        } else if c1 == 'l' {
            81
        } else if c1 == 'h' {
            90
        } else if c1 == 's' {
            117
        } else {
            0
        }
    } else if c0 == 'U' {
        if c1 == ' ' {
            92
        } else {
            0
        }
    } else if c0 == 'V' {
        if c1 == ' ' {
            23
        } else {
            0
        }
    } else if c0 == 'W' {
        if c1 == ' ' {
            74
        } else {
            0
        }
    } else if c0 == 'X' {
        if c1 == 'e' {
            54
        } else {
            0
        }
    } else if c0 == 'Y' {
        if c1 == ' ' {
            39
        } else if c1 == 'b' {
            70
        } else {
            0
        }
    } else if c0 == 'Z' {
        if c1 == 'n' {
            30
        } else if c1 == 'r' {
            40
        } else {
            0
        }
    } else {
        0
    }
}

proof fn lemma_table_entry(z: int)
    requires
        1 <= z <= 118,
    ensures
        pair_z(ELEMENT_SYMBOLS[z - 1][0], ELEMENT_SYMBOLS[z - 1][1]) == z,
        is_upper_char(ELEMENT_SYMBOLS[z - 1][0]),
        ELEMENT_SYMBOLS[z - 1][1] == ' ' || is_lower_char(ELEMENT_SYMBOLS[z - 1][1]),
{
    if z == 1 {
    } else if z == 2 {
    } else if z == 3 {
    } else if z == 4 {
    } else if z == 5 {
    } else if z == 6 {
    } else if z == 7 {
    } else if z == 8 {
    } else if z == 9 {
    } else if z == 10 {
    } else if z == 11 {
    } else if z == 12 {
    } else if z == 13 {
    } else if z == 14 {
    } else if z == 15 {
    } else if z == 16 {
    } else if z == 17 {
    } else if z == 18 {
    } else if z == 19 {
    } else if z == 20 {
    } else if z == 21 {
    } else if z == 22 {
    } else if z == 23 {
    } else if z == 24 {
    } else if z == 25 {
    } else if z == 26 {
    } else if z == 27 {
    } else if z == 28 {
    } else if z == 29 {
    } else if z == 30 {
    } else if z == 31 {
    } else if z == 32 {
    } else if z == 33 {
    } else if z == 34 {
    } else if z == 35 {
    } else if z == 36 {
    } else if z == 37 {
    } else if z == 38 {
    } else if z == 39 {
    } else if z == 40 {
    } else if z == 41 {
    } else if z == 42 {
    } else if z == 43 {
    } else if z == 44 {
    } else if z == 45 {
    } else if z == 46 {
    } else if z == 47 {
    } else if z == 48 {
    } else if z == 49 {
    } else if z == 50 {
    } else if z == 51 {
    } else if z == 52 {
    } else if z == 53 {
    } else if z == 54 {
    } else if z == 55 {
    } else if z == 56 {
    } else if z == 57 {
    } else if z == 58 {
    } else if z == 59 {
    } else if z == 60 {
    } else if z == 61 {
    } else if z == 62 {
    } else if z == 63 {
    } else if z == 64 {
    } else if z == 65 {
    } else if z == 66 {
    } else if z == 67 {
    } else if z == 68 {
    } else if z == 69 {
    } else if z == 70 {
    } else if z == 71 {
    } else if z == 72 {
    } else if z == 73 {
    } else if z == 74 {
    } else if z == 75 {
    } else if z == 76 {
    } else if z == 77 {
    } else if z == 78 {
    } else if z == 79 {
    } else if z == 80 {
    } else if z == 81 {
    } else if z == 82 {
    } else if z == 83 {
    } else if z == 84 {
    } else if z == 85 {
    } else if z == 86 {
    } else if z == 87 {
    } else if z == 88 {
    } else if z == 89 {
    } else if z == 90 {
    } else if z == 91 {
    } else if z == 92 {
    } else if z == 93 {
    } else if z == 94 {
    } else if z == 95 {
    } else if z == 96 {
    } else if z == 97 {
    } else if z == 98 {
    } else if z == 99 {
    } else if z == 100 {
    } else if z == 101 {
    } else if z == 102 {
    } else if z == 103 {
    } else if z == 104 {
    } else if z == 105 {
    } else if z == 106 {
    } else if z == 107 {
    } else if z == 108 {
    } else if z == 109 {
    } else if z == 110 {
    } else if z == 111 {
    } else if z == 112 {
    } else if z == 113 {
    } else if z == 114 {
    } else if z == 115 {
    } else if z == 116 {
    } else if z == 117 {
    } else if z == 118 {
    }
}

/// No two elements share a symbol.
proof fn lemma_symbols_distinct(w: int, z: int)
    requires
        1 <= w <= 118,
        1 <= z <= 118,
        element_symbol(w) == element_symbol(z),
    ensures
        w == z,
{
    lemma_table_entry(w);
    lemma_table_entry(z);
    let ew = ELEMENT_SYMBOLS[w - 1];
    let ez = ELEMENT_SYMBOLS[z - 1];
    assert(element_symbol(w)[0] == ew[0]);
    assert(element_symbol(z)[0] == ez[0]);
    if ew[1] == ' ' {
        assert(element_symbol(w).len() == 1);
        assert(ez[1] == ' ');
    } else {
        assert(element_symbol(w).len() == 2);
        assert(ez[1] != ' ');
        assert(element_symbol(w)[1] == ew[1]);
        assert(element_symbol(z)[1] == ez[1]);
    }
}

/// The symbol of element `z` looks up `z`; its letters are an ASCII
/// capital and at most one ASCII small letter.
pub proof fn lemma_symbol_of_z(z: int)
    requires
        1 <= z <= 118,
    ensures
        element_z(element_symbol(z)) == Some(z),
        1 <= element_symbol(z).len() <= 2,
        is_upper_char(element_symbol(z)[0]),
        element_symbol(z).len() == 2 ==> is_lower_char(element_symbol(z)[1]),
{
    lemma_table_entry(z);
    let sym = element_symbol(z);
    assert forall|w: int| 1 <= w < z implies element_symbol(w) != sym by {
        if element_symbol(w) == sym {
            lemma_symbols_distinct(w, z);
        }
    }
    assert(is_z_of(sym, z));
    let c = choose|c: int| is_z_of(sym, c);
    lemma_is_z_of_unique(sym, z, c);
}

/// Look up the atomic number of an exactly spelled element symbol.
pub fn element_z_exec(sym: &Vec<char>) -> (r: Option<u32>)
    ensures
        match (r, element_z(sym@)) {
            (Some(z), Some(w)) => z as int == w,
            (None, None) => true,
            _ => false,
        },
{
    let n = sym.len();
    if n == 0 || n > 2 {
        proof {
            if exists|z: int| is_z_of(sym@, z) {
                let z = choose|z: int| is_z_of(sym@, z);
                assert(element_symbol(z).len() == 1 || element_symbol(z).len() == 2);
            }
        }
        return None;
    }
    let mut z: usize = 1;
    while z <= 118
        invariant
            1 <= z <= 119,
            n == sym@.len(),
            1 <= n <= 2,
            forall|w: int| 1 <= w < z ==> element_symbol(w) != sym@,
        decreases 119 - z,
    {
        let e = ELEMENT_SYMBOLS[z - 1];
        let matches = if e[1] == ' ' {
            n == 1 && sym[0] == e[0]
        } else {
            n == 2 && sym[0] == e[0] && sym[1] == e[1]
        };
        proof {
            if e[1] == ' ' {
                if n == 1 && sym@[0] == e[0] {
                    assert(sym@ =~= seq![e[0]]);
                }
            } else {
                if n == 2 && sym@[0] == e[0] && sym@[1] == e[1] {
                    assert(sym@ =~= seq![e[0], e[1]]);
                }
            }
            assert(matches == (element_symbol(z as int) == sym@));
        }
        if matches {
            proof {
                assert(is_z_of(sym@, z as int));
                let c = choose|c: int| is_z_of(sym@, c);
                lemma_is_z_of_unique(sym@, z as int, c);
            }
            return Some(z as u32);
        }
        z = z + 1;
    }
    proof {
        if exists|c: int| is_z_of(sym@, c) {
            let c = choose|c: int| is_z_of(sym@, c);
            assert(element_symbol(c) == sym@);
        }
    }
    None
}

/// The symbol of element `z` as characters.
pub fn element_symbol_exec(z: u32) -> (r: Vec<char>)
    requires
        1 <= z <= 118,
    ensures
        r@ == element_symbol(z as int),
{
    let e = ELEMENT_SYMBOLS[(z - 1) as usize];
    let mut r: Vec<char> = Vec::new();
    r.push(e[0]);
    if e[1] != ' ' {
        r.push(e[1]);
    }
    assert(r@ =~= element_symbol(z as int));
    r
}

/// Isomeric state of a designator letter (case-insensitive): `m` is 1, `n`
/// is 2, ... along `mnopqrstuvxyz`.
pub open spec fn isomer_state(c: char) -> Option<u32> {
    let l = lower_char(c);
    if exists|i: int| 0 <= i < 13 && ISOMER_LETTERS[i] == l {
        Some(((choose|i: int| 0 <= i < 13 && ISOMER_LETTERS[i] == l) + 1) as u32)
    } else {
        None
    }
}

/// The designator letter of isomeric state `s` (`1 <= s <= 13`).
pub open spec fn isomer_letter(s: u32) -> Option<char> {
    if 1 <= s <= 13 {
        Some(ISOMER_LETTERS[s - 1])
    } else {
        None
    }
}

/// Every designator letter names its own state.
pub proof fn lemma_isomer_letter_state(st: u32)
    requires
        1 <= st <= 13,
    ensures
        isomer_letter(st) is Some,
        isomer_state(isomer_letter(st)->0) == Some(st),
        is_lower_char(isomer_letter(st)->0),
{
    let l = ISOMER_LETTERS[st - 1];
    assert(is_lower_char(l));
    assert(lower_char(l) == l);
    assert(0 <= st - 1 < 13 && ISOMER_LETTERS[st - 1] == l);
    let k = choose|k: int| 0 <= k < 13 && ISOMER_LETTERS[k] == l;
    assert(forall|a: int, b: int| 0 <= a < b < 13 ==> ISOMER_LETTERS[a] != ISOMER_LETTERS[b]);
    assert(k == st - 1);
}

/// State of a designator letter (case-insensitive), `None` for any other
/// character.
pub fn isomer_state_exec(c: char) -> (r: Option<u32>)
    ensures
        r == isomer_state(c),
{
    let l = to_lower_char(c);
    let mut i: usize = 0;
    while i < 13
        invariant
            i <= 13,
            l == lower_char(c),
            forall|j: int| 0 <= j < i ==> ISOMER_LETTERS[j] != l,
        decreases 13 - i,
    {
        if ISOMER_LETTERS[i] == l {
            proof {
                let k = choose|k: int| 0 <= k < 13 && ISOMER_LETTERS[k] == l;
                assert(ISOMER_LETTERS[k] == ISOMER_LETTERS[i as int]);
                assert(forall|a: int, b: int| 0 <= a < b < 13 ==> ISOMER_LETTERS[a] != ISOMER_LETTERS[b]);
                assert(k == i);
            }
            return Some((i + 1) as u32);
        }
        i = i + 1;
    }
    None
}

/// A nuclide: atomic number, mass number, isomeric state.
#[derive(Debug, Clone, Copy, PartialEq, Eq, Hash, PartialOrd, Ord, Structural)]
pub struct NuclideId {
    z: u32,
    a: u32,
    state: u32,
}

/// Why a nuclide identity is refused.
#[derive(Debug, Clone, Copy, PartialEq, Eq, Structural)]
pub enum NuclideError {
    /// The atomic number has no element symbol.
    UnknownElement(u32),
    /// The mass number is below the atomic number or above 999.
    BadMass { z: u32, a: u32 },
    /// The isomeric state has no designator letter.
    BadState(u32),
    /// A packed `ZZZAAASSSS` identifier does not decode to a valid identity.
    BadNucid(u32),
}

/// A valid identity: a known element, `Z <= A <= 999`, state `<= 13`.
pub open spec fn valid_nuclide(z: u32, a: u32, state: u32) -> bool {
    1 <= z <= 118 && z <= a <= 999 && state <= 13
}

impl NuclideId {
    #[verifier::type_invariant]
    spec fn id_inv(self) -> bool {
        valid_nuclide(self.z, self.a, self.state)
    }

    pub closed spec fn spec_z(self) -> u32 {
        self.z
    }

    pub closed spec fn spec_a(self) -> u32 {
        self.a
    }

    pub closed spec fn spec_state(self) -> u32 {
        self.state
    }

    /// The packed identifier `Z * 10_000_000 + A * 10_000 + state`.
    pub open spec fn spec_nucid(self) -> int {
        self.spec_z() * 10_000_000 + self.spec_a() * 10_000 + self.spec_state()
    }

    pub open spec fn wf(self) -> bool {
        valid_nuclide(self.spec_z(), self.spec_a(), self.spec_state())
    }

    /// Identity from atomic number, mass number and isomeric state.
    pub fn new(z: u32, a: u32, state: u32) -> (r: Result<NuclideId, NuclideError>)
        ensures
            valid_nuclide(z, a, state) <==> r is Ok,
            r matches Ok(id) ==> id.spec_z() == z && id.spec_a() == a && id.spec_state() == state,
            !(1 <= z <= 118) ==> r == Err::<NuclideId, NuclideError>(NuclideError::UnknownElement(z)),
            (1 <= z <= 118 && !(z <= a <= 999)) ==> r == Err::<NuclideId, NuclideError>(NuclideError::BadMass { z, a }),
            (1 <= z <= 118 && z <= a <= 999 && state > 13) ==> r == Err::<NuclideId, NuclideError>(NuclideError::BadState(state)),
    {
        if z < 1 || z > 118 {
            return Err(NuclideError::UnknownElement(z));
        }
        if a < z || a > 999 {
            return Err(NuclideError::BadMass { z, a });
        }
        if state > 13 {
            return Err(NuclideError::BadState(state));
        }
        Ok(NuclideId { z, a, state })
    }

    /// Identity from a packed `ZZZAAASSSS` identifier.
    pub fn from_nucid(nucid: u32) -> (r: Result<NuclideId, NuclideError>)
        ensures
            r matches Ok(id) ==> id.wf() && id.spec_nucid() == nucid,
            (exists|z: u32, a: u32, s: u32| valid_nuclide(z, a, s) && z * 10_000_000 + a * 10_000 + s == nucid)
                <==> r is Ok,
            r is Err ==> r == Err::<NuclideId, NuclideError>(NuclideError::BadNucid(nucid)),
    {
        let z = nucid / 10_000_000;
        let a = (nucid / 10_000) % 1000;
        let s = nucid % 10_000;
        proof {
            assert(nucid == z * 10_000_000 + a * 10_000 + s) by (nonlinear_arith)
                requires
                    z == nucid / 10_000_000,
                    a == (nucid / 10_000) % 1000,
                    s == nucid % 10_000;
            assert forall|z2: u32, a2: u32, s2: u32|
                valid_nuclide(z2, a2, s2) && z2 * 10_000_000 + a2 * 10_000 + s2 == nucid implies z2 == z && a2 == a && s2 == s by {
                assert(z2 == z && a2 == a && s2 == s) by (nonlinear_arith)
                    requires
                        a2 <= 999,
                        s2 <= 13,
                        z2 * 10_000_000 + a2 * 10_000 + s2 == nucid,
                        z == nucid / 10_000_000,
                        a == (nucid / 10_000) % 1000,
                        s == nucid % 10_000;
            }
        }
        if 1 <= z && z <= 118 && z <= a && a <= 999 && s <= 13 {
            assert(valid_nuclide(z, a, s) && z * 10_000_000 + a * 10_000 + s == nucid);
            Ok(NuclideId { z, a, state: s })
        } else {
            proof {
                if exists|z2: u32, a2: u32, s2: u32| valid_nuclide(z2, a2, s2) && z2 * 10_000_000 + a2 * 10_000 + s2 == nucid {
                    let (z2, a2, s2) = choose|z2: u32, a2: u32, s2: u32| valid_nuclide(z2, a2, s2) && z2 * 10_000_000 + a2 * 10_000 + s2 == nucid;
                    assert(z2 == z && a2 == a && s2 == s);
                }
            }
            Err(NuclideError::BadNucid(nucid))
        }
    }

    /// Atomic number.
    pub fn z(&self) -> (r: u32)
        ensures
            r == self.spec_z(),
            self.wf(),
    {
        proof {
            use_type_invariant(self);
        }
        self.z
    }

    /// Mass number.
    pub fn a(&self) -> (r: u32)
        ensures
            r == self.spec_a(),
            self.wf(),
    {
        proof {
            use_type_invariant(self);
        }
        self.a
    }

    /// Isomeric state (0 = ground state).
    pub fn state(&self) -> (r: u32)
        ensures
            r == self.spec_state(),
            self.wf(),
    {
        proof {
            use_type_invariant(self);
        }
        self.state
    }

    /// Packed identifier `Z * 10_000_000 + A * 10_000 + state`.
    pub fn nucid(&self) -> (r: u32)
        ensures
            r == self.spec_nucid(),
            self.wf(),
    {
        proof {
            use_type_invariant(self);
        }
        self.z * 10_000_000 + self.a * 10_000 + self.state
    }
}

} // verus!
