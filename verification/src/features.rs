//! Hashed features of a candidate in its context, and the course of a training with them.

use crate::context_rules::more;
use crate::text::characters;
use vstd::prelude::*;
use vstd::std_specs::num::*;

verus! {

/// What a hash starts with.
pub const HASH_START: u64 = 0xcbf2_9ce4_8422_2325;

/// What a hash is multiplied with for each character.
pub const HASH_FACTOR: u64 = 0x0000_0100_0000_01b3;

/// How many characters of the context features look at.
pub const CONTEXT_LENGTH: usize = 3;

/// A product without what does not fit.
pub open spec fn wrapped_product(left: u64, right: u64) -> u64 {
    ((left as int * right as int) % 0x1_0000_0000_0000_0000) as u64
}

/// A hash after some more characters.
pub open spec fn mixed(hash: u64, letters: Seq<char>) -> u64
    decreases letters.len(),
{
    if letters.len() == 0 {
        hash
    } else {
        wrapped_product(
            mixed(hash, letters.drop_last()) ^ (letters.last() as u32 as u64),
            HASH_FACTOR,
        )
    }
}

/// The feature of two pieces of text under a tag, among `dimensions` features.
pub open spec fn hashed(tag: u64, left: Seq<char>, right: Seq<char>, dimensions: usize) -> usize {
    ((mixed(HASH_START ^ tag, left + right) ^ ((left.len() as u64) << 48u64)) & ((dimensions
        - 1) as u64)) as usize
}

fn mix(hash: u64, letters: &[char]) -> (result: u64)
    ensures
        result == mixed(hash, letters@),
{
    let mut value: u64 = hash;
    assert(letters@.take(0) =~= Seq::<char>::empty());
    for index in 0..letters.len()
        invariant
            value == mixed(hash, letters@.take(index as int)),
    {
        assert(letters@.take(index + 1).drop_last() =~= letters@.take(index as int));
        let changed: u64 = value ^ (letters[index] as u32 as u64);
        value = changed.wrapping_mul(HASH_FACTOR);
        assert(value == wrapped_product(changed, HASH_FACTOR));
    }
    assert(letters@.take(letters@.len() as int) =~= letters@);
    value
}

proof fn mixed_in_parts(hash: u64, left: Seq<char>, right: Seq<char>)
    ensures
        mixed(hash, left + right) == mixed(mixed(hash, left), right),
    decreases right.len(),
{
    let all = left + right;
    if right.len() == 0 {
        assert(all =~= left);
    } else {
        mixed_in_parts(hash, left, right.drop_last());
        assert(all.drop_last() =~= left + right.drop_last());
        assert(all.last() == right.last());
    }
}

/// The feature of two pieces of text under a tag.
pub fn feature_hash(tag: u64, left: &[char], right: &[char], dimensions: usize) -> (result: usize)
    requires
        dimensions > 0,
    ensures
        result == hashed(tag, left@, right@, dimensions),
        result < dimensions,
{
    let start: u64 = mix(HASH_START ^ tag, left);
    let hash: u64 = mix(start, right);
    proof {
        mixed_in_parts(HASH_START ^ tag, left@, right@);
    }
    let count: u64 = left.len() as u64;
    let marked: u64 = hash ^ (count << 48u64);
    let mask: u64 = (dimensions - 1) as u64;
    let masked: u64 = marked & mask;
    assert(masked <= mask) by (bit_vector)
        requires
            masked == marked & mask,
    ;
    masked as usize
}

/// The features of the pieces of a surface that have the length, behind a piece of context.
pub open spec fn piece_features(
    tag: u64,
    left: Seq<char>,
    surface: Seq<char>,
    length: int,
    dimensions: usize,
) -> Seq<usize> {
    Seq::new(
        (if surface.len() >= length {
            surface.len() - length + 1
        } else {
            0
        }) as nat,
        |i: int| hashed(tag, left, surface.subrange(i, i + length), dimensions),
    )
}

fn push_pieces(
    features: &mut Vec<usize>,
    tag: u64,
    left: &[char],
    surface: &[char],
    length: usize,
    dimensions: usize,
)
    requires
        dimensions > 0,
        1 <= length <= 3,
        forall|i: int| 0 <= i < old(features)@.len() ==> #[trigger] old(features)@[i] < dimensions,
    ensures
        final(features)@ == old(features)@ + piece_features(
            tag,
            left@,
            surface@,
            length as int,
            dimensions,
        ),
        forall|i: int|
            0 <= i < final(features)@.len() ==> #[trigger] final(features)@[i] < dimensions,
{
    let ghost start = features@;
    let ghost owed = piece_features(tag, left@, surface@, length as int, dimensions);
    let total: usize = surface.len();
    if total < length {
        assert(features@ =~= start + owed);
        return;
    }
    let last: usize = total - length;
    assert(features@ =~= start + owed.take(0));
    let mut place: usize = 0;
    while place <= last
        invariant
            dimensions > 0,
            1 <= length,
            total == surface@.len(),
            last == total - length,
            place <= last + 1,
            owed == piece_features(tag, left@, surface@, length as int, dimensions),
            owed.len() == last + 1,
            features@ == start + owed.take(place as int),
            forall|i: int| 0 <= i < features@.len() ==> #[trigger] features@[i] < dimensions,
        decreases last + 1 - place,
    {
        let mut piece: Vec<char> = Vec::new();
        for offset in 0..length
            invariant
                total == surface@.len(),
                last == total - length,
                place <= last,
                piece@ == surface@.subrange(place as int, place + offset),
        {
            piece.push(surface[place + offset]);
            assert(piece@ =~= surface@.subrange(place as int, place + offset + 1));
        }
        features.push(feature_hash(tag, left, piece.as_slice(), dimensions));
        assert(features@ =~= start + owed.take(place + 1));
        place += 1;
    }
    assert(owed.take(last + 1) =~= owed);
}

/// The last characters of a context, the nearest first.
pub open spec fn nearest(context: Seq<char>) -> Seq<char> {
    context.reverse().take(
        if context.len() <= CONTEXT_LENGTH {
            context.len() as int
        } else {
            CONTEXT_LENGTH as int
        },
    )
}

/// The features that tie a surface to the nearest `count` characters of its context, the closest
/// context first.
pub open spec fn context_features(
    near: Seq<char>,
    surface: Seq<char>,
    dimensions: usize,
    count: int,
) -> Seq<usize>
    decreases count,
{
    if count <= 0 {
        Seq::empty()
    } else {
        context_features(near, surface, dimensions, count - 1) + piece_features(
            (10 + count) as u64,
            near.take(count),
            surface,
            1,
            dimensions,
        ) + piece_features((20 + count) as u64, near.take(count), surface, 2, dimensions)
    }
}

/// The features of a surface in its context: its pieces of one, two and three characters, and
/// those of one and two characters behind each end of the context.
pub open spec fn features_of(context: Seq<char>, surface: Seq<char>, dimensions: usize) -> Seq<
    usize,
> {
    let near = nearest(context);
    piece_features(1, Seq::empty(), surface, 1, dimensions) + piece_features(
        2,
        Seq::empty(),
        surface,
        2,
        dimensions,
    ) + piece_features(3, Seq::empty(), surface, 3, dimensions) + context_features(
        near,
        surface,
        dimensions,
        near.len() as int,
    )
}

/// What is far in the context does not count: only its last characters make features.
pub proof fn far_context_makes_no_feature(
    far: Seq<char>,
    context: Seq<char>,
    surface: Seq<char>,
    dimensions: usize,
)
    requires
        context.len() >= CONTEXT_LENGTH,
    ensures
        features_of(far + context, surface, dimensions) == features_of(
            context,
            surface,
            dimensions,
        ),
{
    assert(nearest(far + context) =~= nearest(context));
}

/// The features of a surface in its context.
pub fn features(context: &str, surface: &str, dimensions: usize) -> (result: Vec<usize>)
    requires
        dimensions > 0,
    ensures
        result@ == features_of(context@, surface@, dimensions),
        forall|i: int| 0 <= i < result@.len() ==> #[trigger] result@[i] < dimensions,
{
    let letters: Vec<char> = characters(surface);
    let around: Vec<char> = characters(context);
    let total: usize = around.len();
    let count: usize = if total <= CONTEXT_LENGTH {
        total
    } else {
        CONTEXT_LENGTH
    };
    let mut near: Vec<char> = Vec::new();
    let ghost wanted = nearest(context@);
    for index in 0..count
        invariant
            around@ == context@,
            total == around@.len(),
            count <= total,
            count == wanted.len(),
            wanted == nearest(context@),
            near@ == wanted.take(index as int),
    {
        near.push(around[total - 1 - index]);
        assert(near@ =~= wanted.take(index + 1));
    }
    assert(near@ =~= wanted);
    let empty: Vec<char> = Vec::new();
    assert(empty@ =~= Seq::<char>::empty());
    let mut result: Vec<usize> = Vec::new();
    push_pieces(&mut result, 1, empty.as_slice(), letters.as_slice(), 1, dimensions);
    push_pieces(&mut result, 2, empty.as_slice(), letters.as_slice(), 2, dimensions);
    push_pieces(&mut result, 3, empty.as_slice(), letters.as_slice(), 3, dimensions);
    let ghost start = result@;
    assert(start =~= piece_features(1, Seq::empty(), surface@, 1, dimensions) + piece_features(
        2,
        Seq::empty(),
        surface@,
        2,
        dimensions,
    ) + piece_features(3, Seq::empty(), surface@, 3, dimensions));
    assert(result@ =~= start + context_features(wanted, surface@, dimensions, 0));
    let mut suffix: Vec<char> = Vec::new();
    for index in 0..count
        invariant
            dimensions > 0,
            letters@ == surface@,
            near@ == wanted,
            count == wanted.len(),
            count <= CONTEXT_LENGTH,
            suffix@ == wanted.take(index as int),
            result@ == start + context_features(wanted, surface@, dimensions, index as int),
            forall|i: int| 0 <= i < result@.len() ==> #[trigger] result@[i] < dimensions,
    {
        suffix.push(near[index]);
        assert(suffix@ =~= wanted.take(index + 1));
        let number: u64 = index as u64 + 1;
        push_pieces(&mut result, 10 + number, suffix.as_slice(), letters.as_slice(), 1, dimensions);
        push_pieces(&mut result, 20 + number, suffix.as_slice(), letters.as_slice(), 2, dimensions);
        assert(result@ =~= start + context_features(wanted, surface@, dimensions, index + 1));
    }
    result
}

// ---------------------------------------------------------------------------
// Training
// ---------------------------------------------------------------------------

/// How far a training went: how many steps it took, how many items had an expected candidate, and
/// how often the weights changed. No count goes beyond the greatest number.
#[derive(Clone, Copy, Debug, PartialEq, Eq, Structural)]
pub struct Training {
    pub step: u32,
    pub oracle_items: usize,
    pub updates: usize,
}

/// One more step.
pub open spec fn next_step(step: u32) -> u32 {
    if step == u32::MAX {
        step
    } else {
        (step + 1) as u32
    }
}

/// The training after an item whose expected candidate is `gold`, if it has one, and for which
/// `predicted` is preferred.
pub open spec fn trained(state: Training, gold: Option<usize>, predicted: usize) -> Training {
    match gold {
        None => state,
        Some(gold) => Training {
            step: next_step(state.step),
            oracle_items: more(state.oracle_items, 1),
            updates: if predicted == gold {
                state.updates
            } else {
                more(state.updates, 1)
            },
        },
    }
}

impl Training {
    pub fn new() -> (result: Self)
        ensures
            result == (Training { step: 0, oracle_items: 0, updates: 0 }),
    {
        Training { step: 0, oracle_items: 0, updates: 0 }
    }

    /// Takes an item into account; whether the weights change, towards `gold` and away from
    /// `predicted`.
    pub fn judge(&mut self, gold: Option<usize>, predicted: usize) -> (result: bool)
        ensures
            *final(self) == trained(*old(self), gold, predicted),
            result == (gold is Some && gold != Some(predicted)),
    {
        match gold {
            None => false,
            Some(gold) => {
                self.oracle_items = self.oracle_items.saturating_add(1);
                self.step = self.step.saturating_add(1);
                if predicted == gold {
                    return false;
                }
                self.updates = self.updates.saturating_add(1);
                true
            },
        }
    }
}

// ---------------------------------------------------------------------------
// What the features are
// ---------------------------------------------------------------------------

/// A hash takes in one character after the other: it is combined with the character's code and
/// multiplied by a fixed factor, without what does not fit into 64 bits.
pub proof fn a_hash_takes_in_every_character(hash: u64, letters: Seq<char>, letter: char)
    ensures
        mixed(hash, Seq::<char>::empty()) == hash,
        mixed(hash, letters.push(letter)) as int == ((mixed(hash, letters) ^ (letter as u32 as u64))
            as int * 1_099_511_628_211) % 18_446_744_073_709_551_616,
        HASH_START == 14_695_981_039_346_656_037,
{
    assert(letters.push(letter).drop_last() =~= letters);
}

/// A feature is smaller than the number of features, and is made of its tag, the texts one behind the
/// other, and the length of the first one.
pub proof fn features_stay_in_their_range(
    tag: u64,
    left: Seq<char>,
    right: Seq<char>,
    dimensions: usize,
)
    requires
        dimensions > 0,
    ensures
        hashed(tag, left, right, dimensions) < dimensions,
        hashed(tag, left, right, dimensions) == ((mixed(
            14_695_981_039_346_656_037u64 ^ tag,
            left + right,
        ) ^ ((left.len() as u64) << 48u64)) & ((dimensions - 1) as u64)) as usize,
{
    let value = mixed(HASH_START ^ tag, left + right) ^ ((left.len() as u64) << 48u64);
    let mask = (dimensions - 1) as u64;
    assert(value & mask <= mask) by (bit_vector);
}

/// A surface without context has a feature for each of its pieces of one, two and three characters,
/// from left to right, the shorter pieces first.
pub proof fn a_surface_has_its_pieces(surface: Seq<char>, dimensions: usize, index: int)
    ensures
        ({
            let found = features_of(Seq::empty(), surface, dimensions);
            let nothing = Seq::<char>::empty();
            let length = surface.len() as int;
            let (ones, twos, threes) = (
                length,
                if length >= 2 { length - 1 } else { 0 },
                if length >= 3 { length - 2 } else { 0 },
            );
            &&& found.len() == ones + twos + threes
            &&& 0 <= index < ones ==> found[index] == hashed(
                1,
                nothing,
                surface.subrange(index, index + 1),
                dimensions,
            )
            &&& 0 <= index < twos ==> found[ones + index] == hashed(
                2,
                nothing,
                surface.subrange(index, index + 2),
                dimensions,
            )
            &&& 0 <= index < threes ==> found[ones + twos + index] == hashed(
                3,
                nothing,
                surface.subrange(index, index + 3),
                dimensions,
            )
        }),
{
    assert(nearest(Seq::<char>::empty()).len() == 0);
}

/// The characters of a context stand nearest first, three at most.
pub proof fn the_nearest_characters_come_first(context: Seq<char>, index: int)
    ensures
        nearest(context).len() == (if context.len() < 3 {
            context.len()
        } else {
            3
        }),
        0 <= index < nearest(context).len() ==> nearest(context)[index] == context[context.len() - 1
            - index],
{
}

/// With each character of context further away, the pieces of one and of two characters are tied to
/// the characters that are at least as near.
pub proof fn a_context_ties_its_pieces(
    near: Seq<char>,
    surface: Seq<char>,
    dimensions: usize,
    count: int,
    index: int,
)
    requires
        0 < count <= near.len() <= 3,
    ensures
        ({
            let before = context_features(near, surface, dimensions, count - 1);
            let found = context_features(near, surface, dimensions, count);
            let length = surface.len() as int;
            &&& context_features(near, surface, dimensions, 0).len() == 0
            &&& found.len() == before.len() + length + (if length >= 2 { length - 1 } else { 0 })
            &&& 0 <= index < before.len() ==> found[index] == before[index]
            &&& 0 <= index < length ==> found[before.len() + index] == hashed(
                (10 + count) as u64,
                near.take(count),
                surface.subrange(index, index + 1),
                dimensions,
            )
            &&& 0 <= index < length - 1 ==> found[before.len() + length + index] == hashed(
                (20 + count) as u64,
                near.take(count),
                surface.subrange(index, index + 2),
                dimensions,
            )
        }),
{
}

/// Training counts an item only if its expected candidate is there, and changes something only if
/// another one is preferred.
pub proof fn training_counts_its_mistakes(state: Training, gold: usize, predicted: usize)
    requires
        state.step < u32::MAX,
        state.oracle_items < usize::MAX,
        state.updates < usize::MAX,
    ensures
        ({
            let after = trained(state, Some(gold), predicted);
            &&& after.step == state.step + 1
            &&& after.oracle_items == state.oracle_items + 1
            &&& predicted == gold ==> after.updates == state.updates
            &&& predicted != gold ==> after.updates == state.updates + 1
        }),
        trained(state, None, predicted) == state,
{
}

} // verus!
