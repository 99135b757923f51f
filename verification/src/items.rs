//! Block and item values and their wire codec.  A block travels as either
//! `"<id>"` or `"<id>,<data>"`, both decimal; decoding a wire string with
//! no comma leaves the data value at zero.
use crate::McpiError;
use crate::numbers::dec_rep;
use crate::numbers::dec_val;
use crate::numbers::i32_numeral_val;
use crate::numbers::is_dec_digit;
use crate::numbers::is_i32_numeral;
use crate::numbers::is_u32_numeral;
use crate::numbers::i32_to_string;
use crate::numbers::lemma_dec_rep_val;
use crate::numbers::lemma_i32_numeral_round_trip;
use crate::numbers::parse_i32;
use crate::numbers::parse_u32;
use crate::numbers::signed_dec_rep;
use crate::numbers::u32_to_string;
use crate::text::find_char;
use crate::text::first_index_of;
use crate::text::lemma_first_index_unique;
use vstd::prelude::*;
use vstd::string::StrSliceExecFns;
use vstd::string::StringExecFns;

verus! {

/// An item (or block kind) known to the game, carried as its numeric id.
#[derive(Clone, Debug, PartialEq, Eq, Structural, PartialOrd, Ord, Hash)]
pub enum Item {
    Id(u32),
}

/// The numeric id an item carries.
pub open spec fn item_id(item: Item) -> u32 {
    match item {
        Item::Id(x) => x,
    }
}

impl Item {
    /// Takes the numeric id out of the item.
    pub fn unwrap(self) -> (r: u32)
        ensures
            r == item_id(self),
    {
        match self {
            Item::Id(x) => x,
        }
    }
}

/// A block value: an item id plus an auxiliary integer sub-type ("data").
#[derive(Clone, Debug, PartialEq, Eq, Structural)]
pub struct Block {
    pub id: Item,
    pub data: i32,
}

/// The wire text of a block: the id alone when the data value is zero,
/// otherwise the id and the data separated by a comma.
pub open spec fn block_to_wire(b: Block) -> Seq<char> {
    if b.data == 0 {
        dec_rep(item_id(b.id) as nat)
    } else {
        dec_rep(item_id(b.id) as nat) + seq![','] + signed_dec_rep(b.data as int)
    }
}

/// The block a wire string decodes to: split at the first comma if there
/// is one, the part before it read as the id, the part after it as the
/// data; without a comma the whole string is the id and the data is zero.
/// `None` when either part is not a numeral of the expected kind.
pub open spec fn block_from_wire(s: Seq<char>) -> Option<Block> {
    if exists|i: int| first_index_of(s, ',', i) {
        let i = choose|i: int| first_index_of(s, ',', i);
        if is_u32_numeral(s.take(i)) && is_i32_numeral(s.skip(i + 1)) {
            Some(
                Block {
                    id: Item::Id(dec_val(s.take(i)) as u32),
                    data: i32_numeral_val(s.skip(i + 1)) as i32,
                },
            )
        } else {
            None
        }
    } else {
        if is_u32_numeral(s) {
            Some(Block { id: Item::Id(dec_val(s) as u32), data: 0 })
        } else {
            None
        }
    }
}

impl Block {
    /// A block from a data value and an item.
    pub fn new(data: i32, id: Item) -> (r: Block)
        ensures
            r == (Block { id, data }),
    {
        Block { id, data }
    }

    /// A block of an item with the data value zero.
    pub fn new_without_data(id: Item) -> (r: Block)
        ensures
            r == (Block { id, data: 0i32 }),
    {
        Block { id, data: 0 }
    }

    /// A block of an item with the data value zero.
    pub fn from_item(id: Item) -> (r: Block)
        ensures
            r == (Block { id, data: 0i32 }),
    {
        Block { id, data: 0 }
    }

    /// Formats this block for the wire.
    pub fn encode(&self) -> (r: String)
        ensures
            r@ == block_to_wire(*self),
    {
        let id = match &self.id {
            Item::Id(x) => *x,
        };
        let mut s = u32_to_string(id);
        if self.data != 0 {
            s.append(",");
            let d = i32_to_string(self.data);
            s.append(d.as_str());
            proof {
                reveal_strlit(",");
                assert(s@ =~= block_to_wire(*self));
            }
        }
        s
    }

    /// Parses a wire string as a block.  A string that is not `"<id>"` or
    /// `"<id>,<data>"` with both fields in range is an unexpected-shape
    /// error.
    pub fn decode(s: String) -> (r: Result<Block, McpiError>)
        ensures
            r is Ok <==> block_from_wire(s@) is Some,
            r matches Ok(b) ==> block_from_wire(s@) == Some(b),
            r matches Err(e) ==> e == McpiError::UnexpectedShape,
    {
        let text = s.as_str();
        let n = text.unicode_len();
        if let Some(i) = find_char(text, ',') {
            proof {
                let w = choose|k: int| first_index_of(s@, ',', k);
                lemma_first_index_unique(s@, ',', w, i as int);
            }
            let id_part = text.substring_char(0, i);
            let data_part = text.substring_char(i + 1, n);
            proof {
                assert(id_part@ =~= s@.take(i as int));
                assert(data_part@ =~= s@.skip(i as int + 1));
            }
            let id = match parse_u32(id_part) {
                Ok(v) => v,
                Err(e) => {
                    return Err(e);
                },
            };
            let data = match parse_i32(data_part) {
                Ok(v) => v,
                Err(e) => {
                    return Err(e);
                },
            };
            Ok(Block { id: Item::Id(id), data })
        } else {
            assert(forall|k: int| !first_index_of(s@, ',', k));
            match parse_u32(text) {
                Ok(v) => Ok(Block { id: Item::Id(v), data: 0 }),
                Err(e) => Err(e),
            }
        }
    }
}

/// Round trip: every block decodes from its own wire text to itself.
pub proof fn lemma_block_wire_round_trip(b: Block)
    ensures
        block_from_wire(block_to_wire(b)) == Some(b),
{
    let id = item_id(b.id) as nat;
    let idrep = dec_rep(id);
    lemma_dec_rep_val(id);
    assert(b.id == Item::Id(item_id(b.id)));
    if b.data == 0 {
        let s = block_to_wire(b);
        assert forall|k: int| !first_index_of(s, ',', k) by {
            if first_index_of(s, ',', k) {
                assert(is_dec_digit(s[k]));
            }
        }
        assert(is_u32_numeral(s));
    } else {
        let s = block_to_wire(b);
        let i = idrep.len() as int;
        assert(s[i] == ',');
        assert forall|j: int| 0 <= j < i implies s[j] != ',' by {
            assert(s[j] == idrep[j]);
            assert(is_dec_digit(idrep[j]));
        }
        assert(first_index_of(s, ',', i));
        let w = choose|k: int| first_index_of(s, ',', k);
        lemma_first_index_unique(s, ',', w, i);
        assert(s.take(i) =~= idrep);
        assert(s.skip(i + 1) =~= signed_dec_rep(b.data as int));
        lemma_i32_numeral_round_trip(b.data);
    }
}

} // verus!
