//! Node identifiers: 6-byte MAC-like addresses.

use vstd::prelude::*;

verus! {

broadcast use vstd::array::group_array_axioms;

/// Number of bytes in a node identifier on the wire.
pub const NODE_SIZE: usize = 6;

/// A 6-byte identifier for one device in the mesh.
#[derive(Clone, Copy, Debug)]
pub struct Node {
    pub mac: [u8; 6],
}

impl View for Node {
    type V = Seq<u8>;

    open spec fn view(&self) -> Seq<u8> {
        self.mac@
    }
}

impl PartialEq for Node {
    fn eq(&self, other: &Node) -> (r: bool) {
        let r = self.mac[0] == other.mac[0] && self.mac[1] == other.mac[1] && self.mac[2]
            == other.mac[2] && self.mac[3] == other.mac[3] && self.mac[4] == other.mac[4]
            && self.mac[5] == other.mac[5];
        proof {
            if r {
                assert(self.mac =~= other.mac);
            }
        }
        r
    }
}

impl Eq for Node {

}

impl vstd::std_specs::cmp::PartialEqSpecImpl for Node {
    open spec fn obeys_eq_spec() -> bool {
        true
    }

    open spec fn eq_spec(&self, other: &Node) -> bool {
        *self == *other
    }
}

impl Node {
    pub fn new(mac: [u8; 6]) -> (r: Node)
        ensures
            r.mac == mac,
    {
        Node { mac }
    }
}

impl Node {
    /// Writes the six raw identifier bytes, no framing; fails with
    /// `BufferCapacityError` when the buffer would exceed `MESSAGE_SIZE`.
    pub fn encode(&self, out: &mut Vec<u8>) -> (r: Result<(), crate::error::CodecError>)
        ensures
            if old(out)@.len() + 6 <= crate::message::MESSAGE_SIZE {
                r matches Ok(u) && final(out)@ == old(out)@ + self@
            } else {
                &&& r matches Err(e) && e == crate::error::CodecError::BufferCapacityError
                &&& final(out)@ == old(out)@
            },
    {
        if out.len() > crate::message::MESSAGE_SIZE - 6 {
            return Err(crate::error::CodecError::BufferCapacityError);
        }
        crate::wire::push_bytes(out, vstd::array::array_as_slice(&self.mac));
        Ok(())
    }

    /// Reads six bytes from the cursor; fails with a nested
    /// `CursorReadError` when fewer remain.
    pub fn decode(cursor: &mut crate::wire::Cursor) -> (r: Result<
        Node,
        crate::error::CodecError,
    >)
        requires
            old(cursor).wf(),
        ensures
            final(cursor).wf(),
            final(cursor).spec_buf() == old(cursor).spec_buf(),
            if old(cursor).spec_remaining().len() >= 6 {
                &&& r matches Ok(n) && n@ == old(cursor).spec_remaining().take(6)
                &&& final(cursor).spec_pos() == old(cursor).spec_pos() + 6
            } else {
                &&& r matches Err(e) && e == crate::error::CodecError::CursorReadError(
                    crate::error::CursorError::BufferUnderflowError,
                )
                &&& final(cursor).spec_pos() == old(cursor).spec_pos()
            },
    {
        let bytes = match cursor.take(6) {
            Ok(b) => b,
            Err(e) => {
                return Err(crate::error::CodecError::CursorReadError(e));
            },
        };
        let mac = [
            *vstd::slice::slice_index_get(bytes, 0),
            *vstd::slice::slice_index_get(bytes, 1),
            *vstd::slice::slice_index_get(bytes, 2),
            *vstd::slice::slice_index_get(bytes, 3),
            *vstd::slice::slice_index_get(bytes, 4),
            *vstd::slice::slice_index_get(bytes, 5),
        ];
        let n = Node { mac };
        proof {
            assert(n@ =~= old(cursor).spec_remaining().take(6));
        }
        Ok(n)
    }
}

/// Relies on `String::push`: appends one character at the end.
pub assume_specification [ String::push ](s: &mut String, c: char)
    ensures
        final(s)@ == old(s)@.push(c),
;

/// Relies on `String::push_str`: appends a string slice at the end.
pub assume_specification [ String::push_str ](s: &mut String, other: &str)
    ensures
        final(s)@ == old(s)@ + other@,
;

/// A nibble as a lowercase hex character.
pub open spec fn hex_digit(n: u8) -> char {
    if n == 0 {
        '0'
    } else if n == 1 {
        '1'
    } else if n == 2 {
        '2'
    } else if n == 3 {
        '3'
    } else if n == 4 {
        '4'
    } else if n == 5 {
        '5'
    } else if n == 6 {
        '6'
    } else if n == 7 {
        '7'
    } else if n == 8 {
        '8'
    } else if n == 9 {
        '9'
    } else if n == 10 {
        'a'
    } else if n == 11 {
        'b'
    } else if n == 12 {
        'c'
    } else if n == 13 {
        'd'
    } else if n == 14 {
        'e'
    } else {
        'f'
    }
}

/// A byte as two lowercase hex characters.
pub open spec fn byte_hex(b: u8) -> Seq<char> {
    seq![hex_digit(b / 16), hex_digit(b % 16)]
}

/// Identifier bytes as colon-separated lowercase hex pairs.
pub open spec fn mac_display(mac: Seq<u8>) -> Seq<char>
    decreases mac.len(),
{
    if mac.len() == 0 {
        Seq::empty()
    } else if mac.len() == 1 {
        byte_hex(mac[0])
    } else {
        mac_display(mac.drop_last()) + seq![':'] + byte_hex(mac.last())
    }
}

/// A nibble as a lowercase hex character.
pub(crate) fn hex_char(n: u8) -> (r: char)
    requires
        n < 16,
    ensures
        r == hex_digit(n),
{
    match n {
        0 => '0',
        1 => '1',
        2 => '2',
        3 => '3',
        4 => '4',
        5 => '5',
        6 => '6',
        7 => '7',
        8 => '8',
        9 => '9',
        10 => 'a',
        11 => 'b',
        12 => 'c',
        13 => 'd',
        14 => 'e',
        _ => 'f',
    }
}

impl Node {
    /// Renders the identifier as colon-separated lowercase hex pairs, as
    /// `01:02:03:0a:0b:0c`.
    pub fn display(&self) -> (r: String)
        ensures
            r@ == mac_display(self@),
    {
        let mut out = String::new();
        let mut i: usize = 0;
        while i < 6
            invariant
                i <= 6,
                out@ == mac_display(self@.take(i as int)),
            decreases 6 - i,
        {
            if i > 0 {
                out.push(':');
            }
            let b = self.mac[i];
            out.push(hex_char(b / 16));
            out.push(hex_char(b % 16));
            proof {
                let m = self@.take(i as int + 1);
                assert(m.drop_last() =~= self@.take(i as int));
                assert(m.last() == self@[i as int]);
                assert(out@ =~= mac_display(m));
            }
            i = i + 1;
        }
        proof {
            assert(self@.take(6) =~= self@);
        }
        out
    }
}

/// The all-0xFF broadcast address; never stored as a tree leaf.
pub open spec fn broadcast_node() -> Node {
    Node { mac: [0xffu8, 0xff, 0xff, 0xff, 0xff, 0xff] }
}

/// Returns the broadcast address `FF:FF:FF:FF:FF:FF`.
pub fn broadcast() -> (r: Node)
    ensures
        r == broadcast_node(),
{
    Node { mac: [0xffu8, 0xff, 0xff, 0xff, 0xff, 0xff] }
}

} // verus!
