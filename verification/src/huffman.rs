//! The Huffman code of compressed sequences.
//!
//! The code starts with its tree: a set bit stands for an inner node, followed by
//! its two subtrees, a clear bit for a leaf, followed by the leaf's byte.  Bits
//! are read from the highest of each byte on.  Each byte of the text then is the
//! path from the root to its leaf, a set bit leading to the second subtree.
use vstd::prelude::*;

verus! {

/// A tree has fewer inner nodes than there are bytes.
pub const MAX_INNER_NODES: usize = 255;

/// A code tree.
pub enum CodeTree {
    Leaf(u8),
    Inner(Box<CodeTree>, Box<CodeTree>),
}

/// The bit at place `at`, the highest of the first byte being at 0.
pub open spec fn bit(data: Seq<u8>, at: int) -> bool {
    (data[at / 8] >> ((7 - at % 8) as u8)) & 1 == 1
}

/// The byte in the eight bits from `at` on.
pub open spec fn octet(data: Seq<u8>, at: int) -> u8 {
    if at % 8 == 0 {
        data[at / 8]
    } else {
        (data[at / 8] << ((at % 8) as u8)) | (data[at / 8 + 1] >> ((8 - at % 8) as u8))
    }
}

/// The tree in the bits from `at` on, the place behind it, and how many inner
/// nodes there are by then, of which `inner` came before.  None where the bits
/// run out, and where there are too many inner nodes.
pub open spec fn tree_at(data: Seq<u8>, at: int, inner: nat) -> Option<(CodeTree, int, nat)>
    decreases 8 * data.len() - at,
{
    if at < 0 || at >= 8 * data.len() {
        None
    } else if !bit(data, at) {
        if at + 9 > 8 * data.len() {
            None
        } else {
            Some((CodeTree::Leaf(octet(data, at + 1)), at + 9, inner))
        }
    } else if inner >= MAX_INNER_NODES {
        None
    } else {
        match tree_at(data, at + 1, inner + 1) {
            None => None,
            Some((first, middle, count)) => if middle <= at || middle > 8 * data.len() {
                None
            } else {
                match tree_at(data, middle, count) {
                    None => None,
                    Some((second, end, total)) => Some(
                        (CodeTree::Inner(Box::new(first), Box::new(second)), end, total),
                    ),
                }
            },
        }
    }
}

/// The byte whose path starts at `at`, and the place behind the path.  None
/// where the bits run out.
pub open spec fn coded_byte(tree: CodeTree, data: Seq<u8>, at: int) -> Option<(u8, int)>
    decreases tree,
{
    match tree {
        CodeTree::Leaf(byte) => Some((byte, at)),
        CodeTree::Inner(first, second) => if at < 0 || at >= 8 * data.len() {
            None
        } else if bit(data, at) {
            coded_byte(*second, data, at + 1)
        } else {
            coded_byte(*first, data, at + 1)
        },
    }
}

/// The first `count` bytes of the text that starts at `at`, and the place behind
/// them.  None where the bits run out.
pub open spec fn coded_text(tree: CodeTree, data: Seq<u8>, at: int, count: nat) -> Option<
    (Seq<u8>, int),
>
    decreases count,
{
    if count == 0 {
        Some((Seq::empty(), at))
    } else {
        match coded_text(tree, data, at, (count - 1) as nat) {
            None => None,
            Some((text, next)) => match coded_byte(tree, data, next) {
                None => None,
                Some((byte, end)) => Some((text.push(byte), end)),
            },
        }
    }
}

/// A place between bits: a byte's index and how many of its bits lie before.
struct BitPlace {
    byte: usize,
    offset: u8,
}

impl BitPlace {
    spec fn valid(self, data: Seq<u8>) -> bool {
        &&& self.byte <= data.len()
        &&& self.offset < 8
        &&& self.byte == data.len() ==> self.offset == 0
    }

    spec fn place(self) -> int {
        8 * self.byte + self.offset
    }
}

fn read_bit(data: &[u8], at: BitPlace) -> (found: Option<(bool, BitPlace)>)
    requires
        at.valid(data@),
    ensures
        match found {
            None => at.place() >= 8 * data@.len(),
            Some((set, next)) => {
                &&& at.place() < 8 * data@.len()
                &&& set == bit(data@, at.place())
                &&& next.valid(data@)
                &&& next.place() == at.place() + 1
            },
        },
{
    if at.byte >= data.len() {
        return None;
    }
    let set = (data[at.byte] >> (7 - at.offset)) & 1 == 1;
    let next = if at.offset == 7 {
        BitPlace { byte: at.byte + 1, offset: 0 }
    } else {
        BitPlace { byte: at.byte, offset: at.offset + 1 }
    };
    Some((set, next))
}

fn read_octet(data: &[u8], at: BitPlace) -> (found: Option<(u8, BitPlace)>)
    requires
        at.valid(data@),
    ensures
        match found {
            None => at.place() + 8 > 8 * data@.len(),
            Some((byte, next)) => {
                &&& at.place() + 8 <= 8 * data@.len()
                &&& byte == octet(data@, at.place())
                &&& next.valid(data@)
                &&& next.place() == at.place() + 8
            },
        },
{
    if at.byte >= data.len() {
        return None;
    }
    if at.offset == 0 {
        return Some((data[at.byte], BitPlace { byte: at.byte + 1, offset: 0 }));
    }
    if data.len() - at.byte < 2 {
        return None;
    }
    let byte = (data[at.byte] << at.offset) | (data[at.byte + 1] >> (8 - at.offset));
    Some((byte, BitPlace { byte: at.byte + 1, offset: at.offset }))
}

/// Reads the tree at a place, behind `inner` other inner nodes.
fn read_tree(data: &[u8], at: BitPlace, inner: usize) -> (found: Option<
    (CodeTree, BitPlace, usize),
>)
    requires
        at.valid(data@),
        inner <= MAX_INNER_NODES,
    ensures
        match found {
            None => tree_at(data@, at.place(), inner as nat) is None,
            Some((tree, next, total)) => {
                &&& tree_at(data@, at.place(), inner as nat) == Some(
                    (tree, next.place(), total as nat),
                )
                &&& next.valid(data@)
                &&& next.place() > at.place()
                &&& inner <= total <= MAX_INNER_NODES
            },
        },
    decreases MAX_INNER_NODES - inner,
{
    match read_bit(data, at) {
        None => None,
        Some((true, next)) => {
            if inner >= MAX_INNER_NODES {
                return None;
            }
            match read_tree(data, next, inner + 1) {
                None => None,
                Some((first, middle, count)) => match read_tree(data, middle, count) {
                    None => None,
                    Some((second, end, total)) => Some(
                        (CodeTree::Inner(Box::new(first), Box::new(second)), end, total),
                    ),
                },
            }
        },
        Some((false, next)) => match read_octet(data, next) {
            None => None,
            Some((byte, end)) => Some((CodeTree::Leaf(byte), end, inner)),
        },
    }
}

fn read_coded_byte(tree: &CodeTree, data: &[u8], at: BitPlace) -> (found: Option<(u8, BitPlace)>)
    requires
        at.valid(data@),
    ensures
        match found {
            None => coded_byte(*tree, data@, at.place()) is None,
            Some((byte, next)) => {
                &&& coded_byte(*tree, data@, at.place()) == Some((byte, next.place()))
                &&& next.valid(data@)
            },
        },
    decreases *tree,
{
    match tree {
        CodeTree::Leaf(byte) => Some((*byte, at)),
        CodeTree::Inner(first, second) => match read_bit(data, at) {
            None => None,
            Some((true, next)) => read_coded_byte(second, data, next),
            Some((false, next)) => read_coded_byte(first, data, next),
        },
    }
}

/// Once the bits have run out, there is no longer text either.
proof fn lemma_text_stops(tree: CodeTree, data: Seq<u8>, at: int, few: nat, many: nat)
    requires
        few <= many,
        coded_text(tree, data, at, few) is None,
    ensures
        coded_text(tree, data, at, many) is None,
    decreases many,
{
    if few < many {
        lemma_text_stops(tree, data, at, few, (many - 1) as nat);
    }
}

/// What `count` bytes were coded into `data`, tree first.
pub open spec fn decoded_text(data: Seq<u8>, count: nat) -> Option<Seq<u8>> {
    match tree_at(data, 0, 0) {
        None => None,
        Some((tree, start, _)) => match coded_text(tree, data, start, count) {
            None => None,
            Some((text, _)) => Some(text),
        },
    }
}

/// Decodes `count` bytes.
pub fn decode_text(data: &[u8], count: usize) -> (text: Option<Vec<u8>>)
    ensures
        match decoded_text(data@, count as nat) {
            None => text is None,
            Some(bytes) => text is Some && text.unwrap()@ == bytes,
        },
{
    let (tree, start, _) = match read_tree(data, BitPlace { byte: 0, offset: 0 }, 0) {
        Some(found) => found,
        None => return None,
    };
    let ghost begin = start.place();
    let mut at = start;
    let mut text: Vec<u8> = Vec::new();
    let mut i: usize = 0;
    while i < count
        invariant
            i <= count,
            at.valid(data@),
            tree_at(data@, 0, 0) is Some,
            tree_at(data@, 0, 0).unwrap().0 == tree,
            tree_at(data@, 0, 0).unwrap().1 == begin,
            coded_text(tree, data@, begin, i as nat) == Some((text@, at.place())),
        decreases count - i,
    {
        match read_coded_byte(&tree, data, at) {
            Some((byte, next)) => {
                text.push(byte);
                at = next;
            },
            None => {
                proof {
                    lemma_text_stops(tree, data@, begin, (i + 1) as nat, count as nat);
                }
                return None;
            },
        }
        i += 1;
    }
    Some(text)
}

/// A longer text starts with every shorter one.
pub proof fn law_longer_texts_extend(data: Seq<u8>, few: nat, many: nat)
    requires
        few <= many,
        decoded_text(data, many) is Some,
    ensures
        decoded_text(data, few) is Some,
        decoded_text(data, many).unwrap().len() == many,
        decoded_text(data, few).unwrap() == decoded_text(data, many).unwrap().take(few as int),
{
    let (tree, start, _) = tree_at(data, 0, 0).unwrap();
    lemma_text_prefix(tree, data, start, few, many);
}

proof fn lemma_text_prefix(tree: CodeTree, data: Seq<u8>, at: int, few: nat, many: nat)
    requires
        few <= many,
        coded_text(tree, data, at, many) is Some,
    ensures
        coded_text(tree, data, at, few) is Some,
        coded_text(tree, data, at, many).unwrap().0.len() == many,
        coded_text(tree, data, at, few).unwrap().0 == coded_text(
            tree,
            data,
            at,
            many,
        ).unwrap().0.take(few as int),
    decreases many,
{
    if many > 0 {
        let fewer = (many - 1) as nat;
        if few < many {
            lemma_text_prefix(tree, data, at, few, fewer);
        } else {
            lemma_text_prefix(tree, data, at, fewer, fewer);
        }
        let shorter = coded_text(tree, data, at, fewer).unwrap().0;
        let longer = coded_text(tree, data, at, many).unwrap().0;
        assert(longer.take(many as int) =~= longer);
        assert(longer.take(fewer as int) =~= shorter);
        assert(longer.take(few as int) =~= if few < many {
            shorter.take(few as int)
        } else {
            longer
        });
    } else {
        assert(coded_text(tree, data, at, 0).unwrap().0.take(0) =~= Seq::empty());
    }
}

/// One byte over and over.
pub open spec fn repeated(byte: u8, count: nat) -> Seq<u8> {
    Seq::new(count, |i: int| byte)
}

/// The byte of a code whose tree is a single leaf.
pub fn lone_byte(data: &[u8]) -> (byte: Option<u8>)
    ensures
        match tree_at(data@, 0, 0) {
            Some((CodeTree::Leaf(leaf), _, _)) => byte == Some(leaf),
            _ => byte is None,
        },
{
    match read_tree(data, BitPlace { byte: 0, offset: 0 }, 0) {
        Some((CodeTree::Leaf(leaf), _, _)) => Some(leaf),
        _ => None,
    }
}

/// A code whose tree is a single leaf spells the leaf's byte, as often as asked.
pub proof fn law_lone_leaves_repeat_their_byte(data: Seq<u8>, count: nat)
    ensures
        tree_at(data, 0, 0) matches Some((CodeTree::Leaf(byte), _, _)) ==> decoded_text(data, count)
            == Some(repeated(byte, count)),
{
    if let Some((CodeTree::Leaf(byte), start, _)) = tree_at(data, 0, 0) {
        lemma_leaf_text(byte, data, start, count);
    }
}

proof fn lemma_leaf_text(byte: u8, data: Seq<u8>, at: int, count: nat)
    ensures
        coded_text(CodeTree::Leaf(byte), data, at, count) == Some((repeated(byte, count), at)),
    decreases count,
{
    if count > 0 {
        let fewer = (count - 1) as nat;
        lemma_leaf_text(byte, data, at, fewer);
        assert(repeated(byte, fewer).push(byte) =~= repeated(byte, count));
    } else {
        assert(repeated(byte, 0) =~= Seq::empty());
    }
}

/// A code whose tree has an inner node spells no more bytes than it has bits.
pub proof fn law_other_texts_take_a_bit_per_byte(data: Seq<u8>, count: nat)
    requires
        tree_at(data, 0, 0) matches Some((CodeTree::Inner(_, _), _, _)),
        count > 8 * data.len(),
    ensures
        decoded_text(data, count) is None,
{
    let (tree, start, _) = tree_at(data, 0, 0).unwrap();
    lemma_tree_end(data, 0, 0);
    lemma_text_end(tree, data, start, count);
}

proof fn lemma_tree_end(data: Seq<u8>, at: int, inner: nat)
    ensures
        tree_at(data, at, inner) matches Some((_, end, _)) ==> at < end <= 8 * data.len(),
    decreases 8 * data.len() - at,
{
    if 0 <= at < 8 * data.len() && bit(data, at) && inner < MAX_INNER_NODES {
        lemma_tree_end(data, at + 1, inner + 1);
        if let Some((_, middle, count)) = tree_at(data, at + 1, inner + 1) {
            lemma_tree_end(data, middle, count);
        }
    }
}

proof fn lemma_byte_end(tree: CodeTree, data: Seq<u8>, at: int)
    requires
        at <= 8 * data.len(),
    ensures
        coded_byte(tree, data, at) matches Some((_, end)) ==> {
            &&& at <= end <= 8 * data.len()
            &&& tree is Inner ==> at < end
        },
    decreases tree,
{
    if let CodeTree::Inner(first, second) = tree {
        if 0 <= at < 8 * data.len() {
            lemma_byte_end(*first, data, at + 1);
            lemma_byte_end(*second, data, at + 1);
        }
    }
}

proof fn lemma_text_end(tree: CodeTree, data: Seq<u8>, at: int, count: nat)
    requires
        tree is Inner,
        at <= 8 * data.len(),
    ensures
        coded_text(tree, data, at, count) matches Some((_, end)) ==> at + count <= end <= 8
            * data.len(),
    decreases count,
{
    if count > 0 {
        lemma_text_end(tree, data, at, (count - 1) as nat);
        if let Some((_, next)) = coded_text(tree, data, at, (count - 1) as nat) {
            lemma_byte_end(tree, data, next);
        }
    }
}

/// The bit of a byte with a weight from 128 for the first down to 1 for the eighth.
pub open spec fn bit_of(byte: u8, place: int) -> bool {
    let weight: u8 = if place == 0 {
        128
    } else if place == 1 {
        64
    } else if place == 2 {
        32
    } else if place == 3 {
        16
    } else if place == 4 {
        8
    } else if place == 5 {
        4
    } else if place == 6 {
        2
    } else {
        1
    };
    byte / weight % 2 == 1
}

proof fn lemma_bits(byte: u8, other: u8)
    by (bit_vector)
    ensures
        (byte >> 7u8) & 1 == 1 <==> byte / 128 % 2 == 1,
        (byte >> 6u8) & 1 == 1 <==> byte / 64 % 2 == 1,
        (byte >> 5u8) & 1 == 1 <==> byte / 32 % 2 == 1,
        (byte >> 4u8) & 1 == 1 <==> byte / 16 % 2 == 1,
        (byte >> 3u8) & 1 == 1 <==> byte / 8 % 2 == 1,
        (byte >> 2u8) & 1 == 1 <==> byte / 4 % 2 == 1,
        (byte >> 1u8) & 1 == 1 <==> byte / 2 % 2 == 1,
        (byte >> 0u8) & 1 == 1 <==> byte / 1 % 2 == 1,
        (byte / 128 % 2 == other / 128 % 2) && (byte / 64 % 2 == other / 64 % 2) && (byte / 32 % 2
            == other / 32 % 2) && (byte / 16 % 2 == other / 16 % 2) && (byte / 8 % 2 == other / 8
            % 2) && (byte / 4 % 2 == other / 4 % 2) && (byte / 2 % 2 == other / 2 % 2) && (byte / 1
            % 2 == other / 1 % 2) ==> byte == other,
{
}

/// Bits are read from the highest of each byte on, byte by byte.
pub proof fn law_bits_come_highest_first(data: Seq<u8>, at: int)
    requires
        0 <= at < 8 * data.len(),
    ensures
        bit(data, at) == bit_of(data[at / 8], at % 8),
{
    lemma_bits(data[at / 8], 0);
}

proof fn lemma_joined_bits(first: u8, second: u8, offset: u8, place: u8)
    by (bit_vector)
    requires
        1 <= offset < 8,
        place < 8,
    ensures
        place + offset < 8 ==> ((((first << offset) | (second >> ((8 - offset) as u8))) >> ((7
            - place) as u8)) & 1 == 1 <==> (first >> ((7 - (place + offset)) as u8)) & 1 == 1),
        place + offset >= 8 ==> ((((first << offset) | (second >> ((8 - offset) as u8))) >> ((7
            - place) as u8)) & 1 == 1 <==> (second >> ((7 - (place + offset - 8)) as u8)) & 1
            == 1),
{
}

/// The byte of eight bits has these bits, in the order in which they are read.
pub proof fn law_octets_have_their_bits(data: Seq<u8>, at: int, place: int)
    requires
        0 <= at,
        at + 8 <= 8 * data.len(),
        0 <= place < 8,
    ensures
        bit_of(octet(data, at), place) == bit(data, at + place),
{
    let offset = at % 8;
    lemma_bits(octet(data, at), 0);
    if offset == 0 {
        assert((at + place) / 8 == at / 8 && (at + place) % 8 == place);
    } else {
        lemma_joined_bits(data[at / 8], data[at / 8 + 1], offset as u8, place as u8);
        if place + offset < 8 {
            assert((at + place) / 8 == at / 8 && (at + place) % 8 == place + offset);
        } else {
            assert((at + place) / 8 == at / 8 + 1 && (at + place) % 8 == place + offset - 8);
        }
    }
}

/// Whether the bits from `at` on are those of a list.
pub open spec fn has_bits(data: Seq<u8>, at: int, bits: Seq<bool>) -> bool {
    &&& 0 <= at
    &&& at + bits.len() <= 8 * data.len()
    &&& forall|i: int| 0 <= i < bits.len() ==> #[trigger] bit(data, at + i) == bits[i]
}

/// The bits that write a tree: a set bit and both subtrees for an inner node, a clear bit
/// and the eight bits of its byte for a leaf.
pub open spec fn tree_bits(tree: CodeTree) -> Seq<bool>
    decreases tree,
{
    match tree {
        CodeTree::Leaf(byte) => seq![false] + Seq::new(8, |place: int| bit_of(byte, place)),
        CodeTree::Inner(first, second) => seq![true] + tree_bits(*first) + tree_bits(*second),
    }
}

/// How many inner nodes a tree has.
pub open spec fn inner_nodes(tree: CodeTree) -> nat
    decreases tree,
{
    match tree {
        CodeTree::Leaf(_) => 0,
        CodeTree::Inner(first, second) => 1 + inner_nodes(*first) + inner_nodes(*second),
    }
}

proof fn lemma_has_bits_joined(data: Seq<u8>, at: int, first: Seq<bool>, second: Seq<bool>)
    requires
        has_bits(data, at, first + second),
    ensures
        has_bits(data, at, first),
        has_bits(data, at + first.len(), second),
{
    assert forall|i: int| 0 <= i < first.len() implies #[trigger] bit(data, at + i)
        == first[i] by {
        assert((first + second)[i] == first[i]);
    }
    assert forall|i: int| 0 <= i < second.len() implies #[trigger] bit(data, at + first.len() + i)
        == second[i] by {
        assert((first + second)[first.len() + i] == second[i]);
        assert(bit(data, at + (first.len() + i)) == (first + second)[first.len() + i]);
    }
}

/// A tree that was written is read back, with the place behind it and its inner nodes
/// counted, as long as there are no more than 255 of them.
pub proof fn law_written_trees_are_read_back(data: Seq<u8>, at: int, inner: nat, tree: CodeTree)
    requires
        has_bits(data, at, tree_bits(tree)),
        inner + inner_nodes(tree) <= 255,
    ensures
        tree_at(data, at, inner) == Some(
            (tree, at + tree_bits(tree).len(), inner + inner_nodes(tree)),
        ),
        tree_bits(tree).len() >= 9,
    decreases tree,
{
    match tree {
        CodeTree::Leaf(byte) => {
            let bits = tree_bits(tree);
            assert(bits[0] == false);
            assert(bit(data, at + 0) == bits[0]);
            let read = octet(data, at + 1);
            assert forall|place: int| 0 <= place < 8 implies #[trigger] bit_of(read, place)
                == bit_of(byte, place) by {
                law_octets_have_their_bits(data, at + 1, place);
                assert(bits[1 + place] == bit_of(byte, place));
                assert(bit(data, at + (1 + place)) == bits[1 + place]);
            }
            lemma_same_byte(read, byte);
        },
        CodeTree::Inner(first, second) => {
            let rest = tree_bits(*first) + tree_bits(*second);
            assert(tree_bits(tree) =~= seq![true] + rest);
            lemma_has_bits_joined(data, at, seq![true], rest);
            assert(bit(data, at + 0) == seq![true][0]);
            lemma_has_bits_joined(data, at + 1, tree_bits(*first), tree_bits(*second));
            law_written_trees_are_read_back(data, at + 1, inner + 1, *first);
            law_written_trees_are_read_back(
                data,
                at + 1 + tree_bits(*first).len(),
                inner + 1 + inner_nodes(*first),
                *second,
            );
        },
    }
}

proof fn lemma_same_byte(byte: u8, other: u8)
    requires
        forall|place: int|
            0 <= place < 8 ==> #[trigger] bit_of(byte, place) == bit_of(other, place),
    ensures
        byte == other,
{
    assert(bit_of(byte, 0) == bit_of(other, 0));
    assert(bit_of(byte, 1) == bit_of(other, 1));
    assert(bit_of(byte, 2) == bit_of(other, 2));
    assert(bit_of(byte, 3) == bit_of(other, 3));
    assert(bit_of(byte, 4) == bit_of(other, 4));
    assert(bit_of(byte, 5) == bit_of(other, 5));
    assert(bit_of(byte, 6) == bit_of(other, 6));
    assert(bit_of(byte, 7) == bit_of(other, 7));
    lemma_bits(byte, other);
}

/// The leaf at the end of a path from the root, a set step leading to the second subtree.
pub open spec fn leaf_at(tree: CodeTree, path: Seq<bool>) -> Option<u8>
    decreases tree,
{
    match tree {
        CodeTree::Leaf(byte) => if path.len() == 0 {
            Some(byte)
        } else {
            None
        },
        CodeTree::Inner(first, second) => if path.len() == 0 {
            None
        } else if path[0] {
            leaf_at(*second, path.skip(1))
        } else {
            leaf_at(*first, path.skip(1))
        },
    }
}

/// A path that was written is read back as the byte of its leaf.
pub proof fn law_written_paths_are_read_back(
    tree: CodeTree,
    data: Seq<u8>,
    at: int,
    path: Seq<bool>,
)
    requires
        has_bits(data, at, path),
        leaf_at(tree, path) is Some,
    ensures
        coded_byte(tree, data, at) == Some((leaf_at(tree, path).unwrap(), at + path.len())),
    decreases tree,
{
    if let CodeTree::Inner(first, second) = tree {
        assert(path =~= seq![path[0]] + path.skip(1));
        lemma_has_bits_joined(data, at, seq![path[0]], path.skip(1));
        assert(bit(data, at + 0) == path[0]);
        if path[0] {
            law_written_paths_are_read_back(*second, data, at + 1, path.skip(1));
        } else {
            law_written_paths_are_read_back(*first, data, at + 1, path.skip(1));
        }
    }
}

/// The paths of a text, one behind the other.
pub open spec fn text_bits(paths: Seq<Seq<bool>>) -> Seq<bool>
    decreases paths.len(),
{
    if paths.len() == 0 {
        Seq::empty()
    } else {
        text_bits(paths.drop_last()) + paths.last()
    }
}

proof fn lemma_written_text(
    tree: CodeTree,
    data: Seq<u8>,
    at: int,
    paths: Seq<Seq<bool>>,
    text: Seq<u8>,
)
    requires
        has_bits(data, at, text_bits(paths)),
        text.len() == paths.len(),
        forall|i: int|
            0 <= i < paths.len() ==> leaf_at(tree, #[trigger] paths[i]) == Some(text[i]),
    ensures
        coded_text(tree, data, at, text.len()) == Some((text, at + text_bits(paths).len())),
    decreases paths.len(),
{
    if paths.len() > 0 {
        let fewer = paths.drop_last();
        lemma_has_bits_joined(data, at, text_bits(fewer), paths.last());
        assert forall|i: int| 0 <= i < fewer.len() implies leaf_at(tree, #[trigger] fewer[i])
            == Some(text.drop_last()[i]) by {
            assert(fewer[i] == paths[i]);
        }
        lemma_written_text(tree, data, at, fewer, text.drop_last());
        assert(leaf_at(tree, paths[paths.len() - 1]) == Some(text.last()));
        law_written_paths_are_read_back(tree, data, at + text_bits(fewer).len(), paths.last());
        assert(text.drop_last().push(text.last()) =~= text);
    } else {
        assert(text =~= Seq::empty());
    }
}

/// Decoding undoes coding: where a code starts with the bits of its tree, and the paths to
/// the bytes of a text follow one behind the other, the text is what comes out.
pub proof fn law_decoding_undoes_coding(
    data: Seq<u8>,
    tree: CodeTree,
    paths: Seq<Seq<bool>>,
    text: Seq<u8>,
)
    requires
        inner_nodes(tree) <= 255,
        has_bits(data, 0, tree_bits(tree) + text_bits(paths)),
        text.len() == paths.len(),
        forall|i: int|
            0 <= i < paths.len() ==> leaf_at(tree, #[trigger] paths[i]) == Some(text[i]),
    ensures
        decoded_text(data, text.len()) == Some(text),
{
    lemma_has_bits_joined(data, 0, tree_bits(tree), text_bits(paths));
    law_written_trees_are_read_back(data, 0, 0, tree);
    lemma_written_text(tree, data, tree_bits(tree).len() as int, paths, text);
}

/// A code with more than 255 inner nodes has no tree.
pub proof fn law_trees_have_a_limit(data: Seq<u8>, at: int)
    requires
        0 <= at < 8 * data.len(),
        bit(data, at),
    ensures
        tree_at(data, at, 255) is None,
{
}

} // verus!
