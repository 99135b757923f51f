//! Textual position tuples and reply fields: the `x,y,z` form positions
//! take on the wire, and the first-field reading that height replies use.
use crate::McpiError;
use crate::numbers::i32_numeral_val;
use crate::numbers::is_i32_numeral;
use crate::numbers::i32_to_string;
use crate::numbers::parse_i32;
use crate::numbers::signed_dec_rep;
use crate::text::find_char;
use crate::text::first_index_of;
use crate::text::first_token;
use crate::text::lemma_first_index_unique;
use crate::text::take_first_token;
use vstd::prelude::*;
use vstd::string::StrSliceExecFns;
use vstd::string::StringExecFns;

verus! {

/// The wire text of an integer position: the three signed numerals joined
/// by commas.
pub open spec fn pos_text(pos: (i32, i32, i32)) -> Seq<char> {
    signed_dec_rep(pos.0 as int) + seq![','] + signed_dec_rep(pos.1 as int) + seq![',']
        + signed_dec_rep(pos.2 as int)
}

/// The integer position a wire string decodes to: exactly three
/// comma-separated fields, each a signed numeral in `i32` range.
pub open spec fn pos_from_wire(s: Seq<char>) -> Option<(i32, i32, i32)> {
    if exists|i: int| first_index_of(s, ',', i) {
        let i = choose|i: int| first_index_of(s, ',', i);
        let rest = s.skip(i + 1);
        if exists|j: int| first_index_of(rest, ',', j) {
            let j = choose|j: int| first_index_of(rest, ',', j);
            if is_i32_numeral(s.take(i)) && is_i32_numeral(rest.take(j)) && is_i32_numeral(
                rest.skip(j + 1),
            ) {
                Some(
                    (
                        i32_numeral_val(s.take(i)) as i32,
                        i32_numeral_val(rest.take(j)) as i32,
                        i32_numeral_val(rest.skip(j + 1)) as i32,
                    ),
                )
            } else {
                None
            }
        } else {
            None
        }
    } else {
        None
    }
}

/// Formats an integer position for the wire as `x,y,z`.
pub fn pos_to_string(pos: (i32, i32, i32)) -> (r: String)
    ensures
        r@ == pos_text(pos),
{
    let mut s = i32_to_string(pos.0);
    s.append(",");
    let y = i32_to_string(pos.1);
    s.append(y.as_str());
    s.append(",");
    let z = i32_to_string(pos.2);
    s.append(z.as_str());
    proof {
        reveal_strlit(",");
        assert(s@ =~= pos_text(pos));
    }
    s
}

/// Parses a reply of the shape `x,y,z` as an integer position.  Anything
/// else — fewer or more fields, or a field that is not an `i32` numeral —
/// is an unexpected-shape error.
pub fn pos_decode_int(pos_str: String) -> (r: Result<(i32, i32, i32), McpiError>)
    ensures
        r is Ok <==> pos_from_wire(pos_str@) is Some,
        r matches Ok(p) ==> pos_from_wire(pos_str@) == Some(p),
        r matches Err(e) ==> e == McpiError::UnexpectedShape,
{
    let text = pos_str.as_str();
    let n = text.unicode_len();
    let i = match find_char(text, ',') {
        Some(i) => i,
        None => {
            return Err(McpiError::UnexpectedShape);
        },
    };
    proof {
        let w = choose|k: int| first_index_of(pos_str@, ',', k);
        lemma_first_index_unique(pos_str@, ',', w, i as int);
    }
    let first = text.substring_char(0, i);
    let rest = text.substring_char(i + 1, n);
    proof {
        assert(first@ =~= pos_str@.take(i as int));
        assert(rest@ =~= pos_str@.skip(i as int + 1));
    }
    let m = rest.unicode_len();
    let j = match find_char(rest, ',') {
        Some(j) => j,
        None => {
            return Err(McpiError::UnexpectedShape);
        },
    };
    proof {
        let w = choose|k: int| first_index_of(rest@, ',', k);
        lemma_first_index_unique(rest@, ',', w, j as int);
    }
    let second = rest.substring_char(0, j);
    let third = rest.substring_char(j + 1, m);
    proof {
        assert(second@ =~= rest@.take(j as int));
        assert(third@ =~= rest@.skip(j as int + 1));
    }
    let x = match parse_i32(first) {
        Ok(v) => v,
        Err(e) => {
            return Err(e);
        },
    };
    let y = match parse_i32(second) {
        Ok(v) => v,
        Err(e) => {
            return Err(e);
        },
    };
    let z = match parse_i32(third) {
        Ok(v) => v,
        Err(e) => {
            return Err(e);
        },
    };
    Ok((x, y, z))
}

/// Parses the first whitespace-separated field of a reply as an `i32`,
/// discarding any trailing fields, as height replies require.
pub fn decode_first_int(reply: String) -> (r: Result<i32, McpiError>)
    ensures
        r is Ok <==> is_i32_numeral(first_token(reply@)),
        r matches Ok(v) ==> v == i32_numeral_val(first_token(reply@)),
        r matches Err(e) ==> e == McpiError::UnexpectedShape,
{
    let token = take_first_token(reply.as_str());
    parse_i32(token)
}

} // verus!
