//! The canonical text form of a 128-bit identifier: thirty-two lower-case
//! hexadecimal digits in five dash-separated groups of 8, 4, 4, 4 and 12.

use vstd::prelude::*;

verus! {

/// The lower-case hexadecimal digit for `n`.
pub open spec fn hex_digit(n: int) -> char {
    if n == 0 {
        '0'
    } else if n == 1 {
        '1'
    } else if n == 2 {
        '2'
    } else if n == 3 {
        '3'
    } else if n == 4 {
        '4'
    } else if n == 5 {
        '5'
    } else if n == 6 {
        '6'
    } else if n == 7 {
        '7'
    } else if n == 8 {
        '8'
    } else if n == 9 {
        '9'
    } else if n == 10 {
        'a'
    } else if n == 11 {
        'b'
    } else if n == 12 {
        'c'
    } else if n == 13 {
        'd'
    } else if n == 14 {
        'e'
    } else {
        'f'
    }
}

/// The value of a lower-case hexadecimal digit, or `-1` for any other
/// character.
pub open spec fn hex_val(c: char) -> int {
    if c == '0' {
        0
    } else if c == '1' {
        1
    } else if c == '2' {
        2
    } else if c == '3' {
        3
    } else if c == '4' {
        4
    } else if c == '5' {
        5
    } else if c == '6' {
        6
    } else if c == '7' {
        7
    } else if c == '8' {
        8
    } else if c == '9' {
        9
    } else if c == 'a' {
        10
    } else if c == 'b' {
        11
    } else if c == 'c' {
        12
    } else if c == 'd' {
        13
    } else if c == 'e' {
        14
    } else if c == 'f' {
        15
    } else {
        -1
    }
}

/// The `k`-th hexadecimal digit of `id`, most significant first.
pub open spec fn nibble_of(id: u128, k: int) -> u128 {
    (id >> ((124 - 4 * k) as u128)) & 0xf
}

/// The positions of the four dashes in the text form.
pub open spec fn dash_pos(i: int) -> bool {
    i == 8 || i == 13 || i == 18 || i == 23
}

/// The digit index written at text position `i` (meaningful when `i` is not
/// a dash position).
pub open spec fn nib_index(i: int) -> int {
    if i < 8 {
        i
    } else if i < 13 {
        i - 1
    } else if i < 18 {
        i - 2
    } else if i < 23 {
        i - 3
    } else {
        i - 4
    }
}

/// The text position at which digit `k` is written.
pub open spec fn pos_of_nib(k: int) -> int {
    if k < 8 {
        k
    } else if k < 12 {
        k + 1
    } else if k < 16 {
        k + 2
    } else if k < 20 {
        k + 3
    } else {
        k + 4
    }
}

/// How many digits are written strictly before text position `i`.
pub open spec fn nib_count(i: int) -> int {
    if i <= 8 {
        i
    } else if i <= 13 {
        i - 1
    } else if i <= 18 {
        i - 2
    } else if i <= 23 {
        i - 3
    } else {
        i - 4
    }
}

/// The canonical dash-separated lower-case hexadecimal text of `id`.
pub open spec fn uuid_text(id: u128) -> Seq<char> {
    Seq::new(
        36,
        |i: int|
            if dash_pos(i) {
                '-'
            } else {
                hex_digit(nibble_of(id, nib_index(i)) as int)
            },
    )
}

proof fn lemma_nibble_bound(id: u128, sh: u128)
    by (bit_vector)
    ensures
        (id >> sh) & 0xf < 16,
{
}

proof fn lemma_nib_keep(acc: u128, d: u128, sh: u128, sh4: u128)
    by (bit_vector)
    requires
        d < 16,
        sh <= 120,
        sh4 == sh + 4,
    ensures
        (((acc << 4) | d) >> sh4) & 0xf == (acc >> sh) & 0xf,
{
}

proof fn lemma_nib_new(acc: u128, d: u128)
    by (bit_vector)
    requires
        d < 16,
    ensures
        ((acc << 4) | d) & 0xf == d,
{
}

proof fn lemma_top_zero(acc: u128, d: u128, t: u128, t4: u128)
    by (bit_vector)
    requires
        d < 16,
        t <= 120,
        t4 == t + 4,
        acc >> t == 0,
    ensures
        ((acc << 4) | d) >> t4 == 0,
{
}

/// A one-character string for the hexadecimal digit `nib`.
fn hex_str(nib: u128) -> (r: &'static str)
    requires
        nib < 16,
    ensures
        r@.len() == 1,
        r@[0] == hex_digit(nib as int),
{
    proof {
        reveal_strlit("0");
        reveal_strlit("1");
        reveal_strlit("2");
        reveal_strlit("3");
        reveal_strlit("4");
        reveal_strlit("5");
        reveal_strlit("6");
        reveal_strlit("7");
        reveal_strlit("8");
        reveal_strlit("9");
        reveal_strlit("a");
        reveal_strlit("b");
        reveal_strlit("c");
        reveal_strlit("d");
        reveal_strlit("e");
        reveal_strlit("f");
    }
    match nib {
        0 => "0",
        1 => "1",
        2 => "2",
        3 => "3",
        4 => "4",
        5 => "5",
        6 => "6",
        7 => "7",
        8 => "8",
        9 => "9",
        10 => "a",
        11 => "b",
        12 => "c",
        13 => "d",
        14 => "e",
        _ => "f",
    }
}

/// The value of `c` as a lower-case hexadecimal digit, or 255 when it is
/// none.
fn hex_val_of(c: char) -> (r: u8)
    ensures
        hex_val(c) >= 0 ==> r as int == hex_val(c),
        hex_val(c) < 0 ==> r == 255,
{
    match c {
        '0' => 0,
        '1' => 1,
        '2' => 2,
        '3' => 3,
        '4' => 4,
        '5' => 5,
        '6' => 6,
        '7' => 7,
        '8' => 8,
        '9' => 9,
        'a' => 10,
        'b' => 11,
        'c' => 12,
        'd' => 13,
        'e' => 14,
        'f' => 15,
        _ => 255,
    }
}

/// Writes `id` in its canonical dash-separated hexadecimal text form.
pub fn uuid_to_string(id: u128) -> (r: String)
    ensures
        r@ == uuid_text(id),
{
    let mut r = String::new();
    for i in 0..36usize
        invariant
            r@.len() == i,
            forall|j: int| 0 <= j < i ==> r@[j] == uuid_text(id)[j],
    {
        if i == 8 || i == 13 || i == 18 || i == 23 {
            r.append("-");
            proof {
                reveal_strlit("-");
                assert(dash_pos(i as int));
                assert(r@[i as int] == '-');
                assert(uuid_text(id)[i as int] == '-');
            }
        } else {
            let k: usize = if i < 8 {
                i
            } else if i < 13 {
                i - 1
            } else if i < 18 {
                i - 2
            } else if i < 23 {
                i - 3
            } else {
                i - 4
            };
            let sh: u128 = (124 - 4 * k) as u128;
            let nib: u128 = (id >> sh) & 0xf;
            proof {
                lemma_nibble_bound(id, sh);
                assert(nib == nibble_of(id, k as int));
            }
            r.append(hex_str(nib));
            proof {
                assert(!dash_pos(i as int));
                assert(nib_index(i as int) == k as int);
                assert(uuid_text(id)[i as int] == hex_digit(nibble_of(id, k as int) as int));
                assert(r@[i as int] == hex_digit(nib as int));
            }
        }
    }
    proof {
        assert(r@ =~= uuid_text(id));
    }
    r
}

/// The identifier whose canonical text is `s`, when there is one.
pub open spec fn spec_parse_uuid(s: Seq<char>) -> Option<u128> {
    if exists|id: u128| s == uuid_text(id) {
        Some(choose|id: u128| s == uuid_text(id))
    } else {
        None
    }
}

/// Parses the canonical dash-separated lower-case hexadecimal text form,
/// returning the identifier it denotes, or `None` when `s` is not such a
/// text.
pub fn parse_uuid(s: &str) -> (r: Option<u128>)
    ensures
        r == spec_parse_uuid(s@),
        match r {
            Some(id) => s@ == uuid_text(id),
            None => forall|id: u128| s@ != uuid_text(id),
        },
{
    let len = s.unicode_len();
    if len != 36 {
        assert(forall|id: u128| s@ != uuid_text(id)) by {
            assert(forall|id: u128| uuid_text(id).len() == 36);
        }
        return None;
    }
    let mut acc: u128 = 0;
    let mut count: usize = 0;
    proof {
        assert(0u128 >> 0u128 == 0) by (bit_vector);
    }
    for i in 0..36usize
        invariant
            len == s@.len(),
            s@.len() == 36,
            count == nib_count(i as int),
            count <= 32,
            count < 32 ==> acc >> ((4 * count) as u128) == 0,
            forall|j: int| 0 <= j < i && dash_pos(j) ==> s@[j] == '-',
            forall|j: int| 0 <= j < i && !dash_pos(j) ==> hex_val(s@[j]) >= 0,
            forall|k: int|
                0 <= k < count ==> (acc >> ((4 * (count - 1 - k)) as u128)) & 0xf == hex_val(
                    s@[pos_of_nib(k)],
                ),
    {
        let c = s.get_char(i);
        if i == 8 || i == 13 || i == 18 || i == 23 {
            if c != '-' {
                assert(forall|id: u128| s@ != uuid_text(id)) by {
                    assert(forall|id: u128| uuid_text(id)[i as int] == '-');
                }
                return None;
            }
        } else {
            let v = hex_val_of(c);
            if v == 255 {
                assert(forall|id: u128| s@ != uuid_text(id)) by {
                    assert forall|id: u128| s@ != uuid_text(id) by {
                        lemma_nibble_bound(id, (124 - 4 * nib_index(i as int)) as u128);
                        assert(uuid_text(id)[i as int] == hex_digit(
                            nibble_of(id, nib_index(i as int)) as int,
                        ));
                        assert(hex_val(uuid_text(id)[i as int]) >= 0);
                        assert(s@[i as int] != uuid_text(id)[i as int]);
                    }
                }
                return None;
            }
            let d = v as u128;
            let ghost old_acc = acc;
            let ghost old_count = count as int;
            acc = (acc << 4) | d;
            count = count + 1;
            proof {
                assert(!dash_pos(i as int));
                assert(old_count == nib_index(i as int));
                assert(pos_of_nib(old_count) == i as int);
                assert(hex_val(s@[i as int]) == d as int);
                assert forall|k: int| 0 <= k < count implies (acc >> ((4 * (count - 1 - k))
                    as u128)) & 0xf == hex_val(s@[pos_of_nib(k)]) by {
                    if k < old_count {
                        let sh = (4 * (old_count - 1 - k)) as u128;
                        let sh4 = (4 * (count - 1 - k)) as u128;
                        assert((old_acc >> sh) & 0xf == hex_val(s@[pos_of_nib(k)]));
                        assert(sh4 == sh + 4);
                        lemma_nib_keep(old_acc, d, sh, sh4);
                    } else {
                        lemma_nib_new(old_acc, d);
                        assert(pos_of_nib(k) == i as int);
                        assert((4 * (count - 1 - k)) as u128 == 0u128);
                        assert((acc >> 0u128) & 0xf == acc & 0xf) by (bit_vector);
                    }
                }
                if count < 32 {
                    lemma_top_zero(old_acc, d, (4 * old_count) as u128, (4 * count) as u128);
                }
            }
        }
    }
    proof {
        assert forall|i: int| 0 <= i < 36 implies s@[i] == uuid_text(acc)[i] by {
            if !dash_pos(i) {
                let k = nib_index(i);
                assert(pos_of_nib(k) == i);
                assert((acc >> ((4 * (31 - k)) as u128)) & 0xf == hex_val(s@[i]));
                assert(nibble_of(acc, k) == (acc >> ((4 * (31 - k)) as u128)) & 0xf);
                assert(hex_digit(hex_val(s@[i])) == s@[i]);
            }
        }
        assert(s@ =~= uuid_text(acc));
        let u = choose|id: u128| s@ == uuid_text(id);
        assert(s@ == uuid_text(u));
        lemma_uuid_text_injective(u, acc);
    }
    Some(acc)
}

/// Distinct identifiers always have distinct text forms.
pub proof fn lemma_uuid_text_injective(a: u128, b: u128)
    requires
        uuid_text(a) == uuid_text(b),
    ensures
        a == b,
{
    assert forall|k: int| 0 <= k < 32 implies nibble_of(a, k) == nibble_of(b, k) by {
        let i = pos_of_nib(k);
        assert(!dash_pos(i) && nib_index(i) == k);
        assert(uuid_text(a)[i] == uuid_text(b)[i]);
        assert(uuid_text(a)[i] == hex_digit(nibble_of(a, k) as int));
        assert(uuid_text(b)[i] == hex_digit(nibble_of(b, k) as int));
        lemma_nibble_bound(a, (124 - 4 * k) as u128);
        lemma_nibble_bound(b, (124 - 4 * k) as u128);
        assert(nibble_of(a, k) < 16 && nibble_of(b, k) < 16);
        assert(hex_val(hex_digit(nibble_of(a, k) as int)) == nibble_of(a, k) as int);
        assert(hex_val(hex_digit(nibble_of(b, k) as int)) == nibble_of(b, k) as int);
    }
    assert(nibble_of(a, 0) == nibble_of(b, 0));
    assert(nibble_of(a, 1) == nibble_of(b, 1));
    assert(nibble_of(a, 2) == nibble_of(b, 2));
    assert(nibble_of(a, 3) == nibble_of(b, 3));
    assert(nibble_of(a, 4) == nibble_of(b, 4));
    assert(nibble_of(a, 5) == nibble_of(b, 5));
    assert(nibble_of(a, 6) == nibble_of(b, 6));
    assert(nibble_of(a, 7) == nibble_of(b, 7));
    assert(nibble_of(a, 8) == nibble_of(b, 8));
    assert(nibble_of(a, 9) == nibble_of(b, 9));
    assert(nibble_of(a, 10) == nibble_of(b, 10));
    assert(nibble_of(a, 11) == nibble_of(b, 11));
    assert(nibble_of(a, 12) == nibble_of(b, 12));
    assert(nibble_of(a, 13) == nibble_of(b, 13));
    assert(nibble_of(a, 14) == nibble_of(b, 14));
    assert(nibble_of(a, 15) == nibble_of(b, 15));
    assert(nibble_of(a, 16) == nibble_of(b, 16));
    assert(nibble_of(a, 17) == nibble_of(b, 17));
    assert(nibble_of(a, 18) == nibble_of(b, 18));
    assert(nibble_of(a, 19) == nibble_of(b, 19));
    assert(nibble_of(a, 20) == nibble_of(b, 20));
    assert(nibble_of(a, 21) == nibble_of(b, 21));
    assert(nibble_of(a, 22) == nibble_of(b, 22));
    assert(nibble_of(a, 23) == nibble_of(b, 23));
    assert(nibble_of(a, 24) == nibble_of(b, 24));
    assert(nibble_of(a, 25) == nibble_of(b, 25));
    assert(nibble_of(a, 26) == nibble_of(b, 26));
    assert(nibble_of(a, 27) == nibble_of(b, 27));
    assert(nibble_of(a, 28) == nibble_of(b, 28));
    assert(nibble_of(a, 29) == nibble_of(b, 29));
    assert(nibble_of(a, 30) == nibble_of(b, 30));
    assert(nibble_of(a, 31) == nibble_of(b, 31));
    assert(a == b) by (bit_vector)
        requires
            (a >> 124u128) & 0xf == (b >> 124u128) & 0xf,
            (a >> 120u128) & 0xf == (b >> 120u128) & 0xf,
            (a >> 116u128) & 0xf == (b >> 116u128) & 0xf,
            (a >> 112u128) & 0xf == (b >> 112u128) & 0xf,
            (a >> 108u128) & 0xf == (b >> 108u128) & 0xf,
            (a >> 104u128) & 0xf == (b >> 104u128) & 0xf,
            (a >> 100u128) & 0xf == (b >> 100u128) & 0xf,
            (a >> 96u128) & 0xf == (b >> 96u128) & 0xf,
            (a >> 92u128) & 0xf == (b >> 92u128) & 0xf,
            (a >> 88u128) & 0xf == (b >> 88u128) & 0xf,
            (a >> 84u128) & 0xf == (b >> 84u128) & 0xf,
            (a >> 80u128) & 0xf == (b >> 80u128) & 0xf,
            (a >> 76u128) & 0xf == (b >> 76u128) & 0xf,
            (a >> 72u128) & 0xf == (b >> 72u128) & 0xf,
            (a >> 68u128) & 0xf == (b >> 68u128) & 0xf,
            (a >> 64u128) & 0xf == (b >> 64u128) & 0xf,
            (a >> 60u128) & 0xf == (b >> 60u128) & 0xf,
            (a >> 56u128) & 0xf == (b >> 56u128) & 0xf,
            (a >> 52u128) & 0xf == (b >> 52u128) & 0xf,
            (a >> 48u128) & 0xf == (b >> 48u128) & 0xf,
            (a >> 44u128) & 0xf == (b >> 44u128) & 0xf,
            (a >> 40u128) & 0xf == (b >> 40u128) & 0xf,
            (a >> 36u128) & 0xf == (b >> 36u128) & 0xf,
            (a >> 32u128) & 0xf == (b >> 32u128) & 0xf,
            (a >> 28u128) & 0xf == (b >> 28u128) & 0xf,
            (a >> 24u128) & 0xf == (b >> 24u128) & 0xf,
            (a >> 20u128) & 0xf == (b >> 20u128) & 0xf,
            (a >> 16u128) & 0xf == (b >> 16u128) & 0xf,
            (a >> 12u128) & 0xf == (b >> 12u128) & 0xf,
            (a >> 8u128) & 0xf == (b >> 8u128) & 0xf,
            (a >> 4u128) & 0xf == (b >> 4u128) & 0xf,
            (a >> 0u128) & 0xf == (b >> 0u128) & 0xf,
    ;
}

} // verus!
