//! Block hit events and the tolerant decoder for comma-separated
//! coordinate triples, which passes over blank filler fields and stops
//! after three values.
use crate::McpiError;
use crate::numbers::i32_numeral_val;
use crate::numbers::is_i32_numeral;
use crate::numbers::parse_i32;
use crate::text::find_char;
use crate::text::first_index_of;
use crate::text::lemma_first_index_unique;
use vstd::prelude::*;
use vstd::string::StrSliceExecFns;

verus! {

/// A block-hit event: where a block was struck, which face took the hit,
/// and which entity struck it.
pub struct BlockEvent {
    pub pos: (i32, i32, i32),
    pub face: i32,
    pub entity_id: i32,
}

impl BlockEvent {
    /// A hit event from its parts.
    pub fn hit(pos: (i32, i32, i32), face: i32, entity_id: i32) -> (r: BlockEvent)
        ensures
            r == (BlockEvent { pos, face, entity_id }),
    {
        BlockEvent { pos, face, entity_id }
    }
}

/// A filler field the coordinate decoder passes over: empty, a single
/// space, or a single newline.
pub open spec fn ignored_field(t: Seq<char>) -> bool {
    t == Seq::<char>::empty() || t == seq![' '] || t == seq!['\n']
}

/// The scan behind [`decode_xyz`]: `s` is the text still to read, `acc`
/// the values collected so far.  Fields are split on commas; filler
/// fields are passed over; the scan succeeds as soon as a fourth value
/// would be collected, and fails on a field that is not an `i32` numeral.
pub open spec fn xyz_scan(s: Seq<char>, acc: Seq<int>) -> Option<Seq<int>>
    decreases s.len(),
{
    if exists|i: int| first_index_of(s, ',', i) {
        let i = choose|i: int| first_index_of(s, ',', i);
        let field = s.take(i);
        let rest = s.skip(i + 1);
        if ignored_field(field) {
            xyz_scan(rest, acc)
        } else if acc.len() >= 3 {
            Some(acc)
        } else if is_i32_numeral(field) {
            xyz_scan(rest, acc.push(i32_numeral_val(field)))
        } else {
            None
        }
    } else {
        if ignored_field(s) {
            Some(acc)
        } else if acc.len() >= 3 {
            Some(acc)
        } else if is_i32_numeral(s) {
            Some(acc.push(i32_numeral_val(s)))
        } else {
            None
        }
    }
}

/// The coordinate triple an encoded string decodes to: the first three
/// collected values, with zero standing in for any that are missing.
pub open spec fn xyz_from_wire(s: Seq<char>) -> Option<(i32, i32, i32)> {
    match xyz_scan(s, Seq::<int>::empty()) {
        None => None,
        Some(vals) => Some(
            (
                if vals.len() > 0 {
                    vals[0] as i32
                } else {
                    0
                },
                if vals.len() > 1 {
                    vals[1] as i32
                } else {
                    0
                },
                if vals.len() > 2 {
                    vals[2] as i32
                } else {
                    0
                },
            ),
        ),
    }
}

/// Decides [`ignored_field`] for one field.
fn ignored(field: &str) -> (r: bool)
    ensures
        r == ignored_field(field@),
{
    let n = field.unicode_len();
    if n == 0 {
        proof {
            assert(field@ =~= Seq::<char>::empty());
        }
        true
    } else if n == 1 {
        let c = field.get_char(0);
        proof {
            if c == ' ' {
                assert(field@ =~= seq![' ']);
            }
            if c == '\n' {
                assert(field@ =~= seq!['\n']);
            }
        }
        c == ' ' || c == '\n'
    } else {
        false
    }
}

/// Decodes a comma-separated coordinate triple, passing over blank filler
/// fields, reading at most three values and leaving missing ones at zero.
/// A non-filler field that is not an `i32` numeral among the first three
/// is an unexpected-shape error.
pub fn decode_xyz(encoded: String) -> (r: Result<(i32, i32, i32), McpiError>)
    ensures
        r is Ok <==> xyz_from_wire(encoded@) is Some,
        r matches Ok(p) ==> xyz_from_wire(encoded@) == Some(p),
        r matches Err(e) ==> e == McpiError::UnexpectedShape,
{
    let mut rest: &str = encoded.as_str();
    let mut x: i32 = 0;
    let mut y: i32 = 0;
    let mut z: i32 = 0;
    let mut cnt: usize = 0;
    let ghost mut acc: Seq<int> = Seq::<int>::empty();
    loop
        invariant
            xyz_scan(encoded@, Seq::<int>::empty()) == xyz_scan(rest@, acc),
            cnt == acc.len(),
            cnt <= 3,
            cnt >= 1 ==> acc[0] == x as int,
            cnt >= 2 ==> acc[1] == y as int,
            cnt >= 3 ==> acc[2] == z as int,
            cnt < 1 ==> x == 0,
            cnt < 2 ==> y == 0,
            cnt < 3 ==> z == 0,
        decreases rest@.len(),
    {
        let n = rest.unicode_len();
        match find_char(rest, ',') {
            Some(i) => {
                proof {
                    let w = choose|k: int| first_index_of(rest@, ',', k);
                    lemma_first_index_unique(rest@, ',', w, i as int);
                }
                let field = rest.substring_char(0, i);
                let next = rest.substring_char(i + 1, n);
                proof {
                    assert(field@ =~= rest@.take(i as int));
                    assert(next@ =~= rest@.skip(i as int + 1));
                }
                if ignored(field) {
                    rest = next;
                } else if cnt >= 3 {
                    return Ok((x, y, z));
                } else {
                    let v = match parse_i32(field) {
                        Ok(v) => v,
                        Err(e) => {
                            return Err(e);
                        },
                    };
                    if cnt == 0 {
                        x = v;
                    } else if cnt == 1 {
                        y = v;
                    } else {
                        z = v;
                    }
                    cnt = cnt + 1;
                    proof {
                        acc = acc.push(v as int);
                    }
                    rest = next;
                }
            },
            None => {
                proof {
                    assert(forall|k: int| !first_index_of(rest@, ',', k));
                }
                if ignored(rest) {
                    return Ok((x, y, z));
                } else if cnt >= 3 {
                    return Ok((x, y, z));
                } else {
                    let v = match parse_i32(rest) {
                        Ok(v) => v,
                        Err(e) => {
                            return Err(e);
                        },
                    };
                    if cnt == 0 {
                        x = v;
                    } else if cnt == 1 {
                        y = v;
                    } else {
                        z = v;
                    }
                    proof {
                        acc = acc.push(v as int);
                    }
                    return Ok((x, y, z));
                }
            },
        }
    }
}

} // verus!
