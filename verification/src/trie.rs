//! The token prefixes that candidates share.

use vstd::prelude::*;

verus! {

/// The token sequences of a list of candidates.
pub open spec fn token_lists(candidates: Seq<Vec<i32>>) -> Seq<Seq<i32>> {
    Seq::new(candidates.len(), |i: int| candidates[i]@)
}

/// The known prefixes, and behind them the prefixes of `tokens` up to length `depth` that were
/// not known, the shortest first.
pub open spec fn with_prefixes(known: Seq<Seq<i32>>, tokens: Seq<i32>, depth: int) -> Seq<Seq<i32>>
    decreases depth,
{
    if depth <= 0 {
        known
    } else {
        let before = with_prefixes(known, tokens, depth - 1);
        if before.contains(tokens.take(depth)) {
            before
        } else {
            before.push(tokens.take(depth))
        }
    }
}

/// The different prefixes of the first `count` candidates, in the order in which they occur
/// first.
pub open spec fn all_prefixes(candidates: Seq<Seq<i32>>, count: int) -> Seq<Seq<i32>>
    decreases count,
{
    if count <= 0 {
        Seq::empty()
    } else {
        with_prefixes(
            all_prefixes(candidates, count - 1),
            candidates[count - 1],
            candidates[count - 1].len() as int,
        )
    }
}

/// The numbers of those of the first `count` candidates that start with `prefix`, in order.
pub open spec fn sequences_with(candidates: Seq<Seq<i32>>, prefix: Seq<i32>, count: int) -> Seq<i32>
    decreases count,
{
    if count <= 0 {
        Seq::empty()
    } else {
        let before = sequences_with(candidates, prefix, count - 1);
        if prefix.is_prefix_of(candidates[count - 1]) {
            before.push((count - 1) as i32)
        } else {
            before
        }
    }
}

/// The numbers of those of the first `count` prefixes that go on one token behind `prefix`, in
/// order.
pub open spec fn longer_by_one(prefixes: Seq<Seq<i32>>, prefix: Seq<i32>, count: int) -> Seq<usize>
    decreases count,
{
    if count <= 0 {
        Seq::empty()
    } else {
        let before = longer_by_one(prefixes, prefix, count - 1);
        let last = prefixes[count - 1];
        if last.len() > 0 && last.drop_last() == prefix {
            before.push((count - 1) as usize)
        } else {
            before
        }
    }
}

/// A token behind the tokens of its parent.
#[derive(Debug, PartialEq, Eq)]
pub struct CandidateTokenNode {
    pub token: i32,
    /// The number of tokens up to this one.
    pub depth: usize,
    /// The candidates that start with the tokens up to this one.
    pub sequences: Vec<i32>,
    /// The nodes of the tokens that follow this one.
    pub children: Vec<usize>,
}

/// The tokens of several candidates, with each shared prefix held once.
#[derive(Debug, PartialEq, Eq)]
pub struct CandidateTokenTrie {
    pub nodes: Vec<CandidateTokenNode>,
    /// The nodes of each candidate's tokens.
    pub candidate_paths: Vec<Vec<usize>>,
}

/// Whether every node stands for the prefix with its number.
pub open spec fn nodes_spell(nodes: Seq<CandidateTokenNode>, prefixes: Seq<Seq<i32>>) -> bool {
    &&& nodes.len() == prefixes.len()
    &&& forall|k: int|
        #![trigger nodes[k]]
        #![trigger prefixes[k]]
        0 <= k < nodes.len() ==> {
            &&& prefixes[k].len() > 0
            &&& nodes[k].token == prefixes[k].last()
            &&& nodes[k].depth == prefixes[k].len()
        }
}

/// Whether the path names, for each token, the node of the tokens up to it.
pub open spec fn path_spells(path: Seq<usize>, tokens: Seq<i32>, prefixes: Seq<Seq<i32>>) -> bool {
    &&& path.len() <= tokens.len()
    &&& forall|d: int|
        0 <= d < path.len() ==> (#[trigger] path[d]) < prefixes.len() && prefixes[path[d] as int]
            == tokens.take(d + 1)
}

impl CandidateTokenTrie {
    /// Whether the trie is that of the candidates: one node for each different prefix in the
    /// order of their first occurrence, with the candidates that share it and the nodes that go
    /// on behind it, and a path for each candidate over its own prefixes.
    pub open spec fn is_trie_of(&self, candidates: Seq<Seq<i32>>) -> bool {
        let prefixes = all_prefixes(candidates, candidates.len() as int);
        &&& nodes_spell(self.nodes@, prefixes)
        &&& forall|k: int|
            0 <= k < self.nodes@.len() ==> (#[trigger] self.nodes@[k]).sequences@ == sequences_with(
                candidates,
                prefixes[k],
                candidates.len() as int,
            )
        &&& forall|k: int|
            0 <= k < self.nodes@.len() ==> (#[trigger] self.nodes@[k]).children@ == longer_by_one(
                prefixes,
                prefixes[k],
                prefixes.len() as int,
            )
        &&& self.candidate_paths@.len() == candidates.len()
        &&& forall|c: int|
            0 <= c < candidates.len() ==> (#[trigger] self.candidate_paths@[c])@.len()
                == candidates[c].len() && path_spells(
                self.candidate_paths@[c]@,
                candidates[c],
                prefixes,
            )
    }
}

// ---------------------------------------------------------------------------
// Laws
// ---------------------------------------------------------------------------

proof fn with_prefixes_grows(known: Seq<Seq<i32>>, tokens: Seq<i32>, depth: int)
    requires
        0 <= depth <= tokens.len(),
        known.no_duplicates(),
    ensures
        with_prefixes(known, tokens, depth).no_duplicates(),
        with_prefixes(known, tokens, depth).len() >= known.len(),
        forall|k: int|
            0 <= k < known.len() ==> #[trigger] with_prefixes(known, tokens, depth)[k] == known[k],
        forall|d: int|
            0 < d <= depth ==> with_prefixes(known, tokens, depth).contains(
                #[trigger] tokens.take(d),
            ),
        forall|k: int|
            known.len() <= k < with_prefixes(known, tokens, depth).len() ==> {
                let prefix = #[trigger] with_prefixes(known, tokens, depth)[k];
                prefix.len() > 0 && prefix.is_prefix_of(tokens)
            },
    decreases depth,
{
    if depth > 0 {
        let before = with_prefixes(known, tokens, depth - 1);
        let after = with_prefixes(known, tokens, depth);
        let added = tokens.take(depth);
        with_prefixes_grows(known, tokens, depth - 1);
        assert(added.is_prefix_of(tokens));
        assert forall|d: int| 0 < d <= depth implies after.contains(#[trigger] tokens.take(d)) by {
            if d < depth {
                let k = choose|k: int| 0 <= k < before.len() && before[k] == tokens.take(d);
                assert(after[k] == tokens.take(d));
            } else if !before.contains(added) {
                assert(after[before.len() as int] == added);
            }
        }
        if !before.contains(added) {
            assert forall|i: int, j: int| 0 <= i < after.len() && 0 <= j < after.len() && i
                != j implies after[i] != after[j] by {
                if i == before.len() {
                    assert(before.contains(before[j]));
                } else if j == before.len() {
                    assert(before.contains(before[i]));
                }
            }
        }
    }
}

/// Whether one of the first `count` candidates starts with `prefix`.
pub open spec fn starts_some(candidates: Seq<Seq<i32>>, prefix: Seq<i32>, count: int) -> bool {
    exists|c: int| 0 <= c < count && prefix.is_prefix_of(#[trigger] candidates[c])
}

/// Candidates share a node exactly where they share a prefix: no prefix has two nodes, every
/// prefix of a candidate has one, and every node belongs to some candidate.
pub proof fn each_prefix_has_one_node(candidates: Seq<Seq<i32>>, count: int)
    requires
        0 <= count <= candidates.len(),
    ensures
        all_prefixes(candidates, count).no_duplicates(),
        forall|c: int, d: int|
            0 <= c < count && 0 < d <= candidates[c].len() ==> all_prefixes(
                candidates,
                count,
            ).contains(#[trigger] candidates[c].take(d)),
        forall|k: int|
            0 <= k < all_prefixes(candidates, count).len() ==> starts_some(
                candidates,
                #[trigger] all_prefixes(candidates, count)[k],
                count,
            ),
        forall|k: int|
            0 <= k < all_prefixes(candidates, count).len() ==> (#[trigger] all_prefixes(
                candidates,
                count,
            )[k]).len() > 0,
    decreases count,
{
    if count > 0 {
        let known = all_prefixes(candidates, count - 1);
        let tokens = candidates[count - 1];
        let after = all_prefixes(candidates, count);
        each_prefix_has_one_node(candidates, count - 1);
        with_prefixes_grows(known, tokens, tokens.len() as int);
        assert forall|c: int, d: int| 0 <= c < count && 0 < d
            <= candidates[c].len() implies after.contains(#[trigger] candidates[c].take(d)) by {
            if c < count - 1 {
                let k = choose|k: int| 0 <= k < known.len() && known[k] == candidates[c].take(d);
                assert(after[k] == known[k]);
            }
        }
        assert forall|k: int| 0 <= k < after.len() implies starts_some(
            candidates,
            #[trigger] after[k],
            count,
        ) by {
            if k < known.len() {
                assert(after[k] == known[k]);
                assert(starts_some(candidates, known[k], count - 1));
                let c = choose|c: int|
                    0 <= c < count - 1 && known[k].is_prefix_of(#[trigger] candidates[c]);
                assert(after[k].is_prefix_of(candidates[c]));
            } else {
                assert(after[k].is_prefix_of(candidates[count - 1]));
            }
        }
    }
}

/// No more nodes are decoded than the candidates have tokens.
pub proof fn a_trie_is_no_larger_than_its_candidates(candidates: Seq<Seq<i32>>, count: int)
    requires
        0 <= count <= candidates.len(),
    ensures
        all_prefixes(candidates, count).len() <= token_total(candidates, count),
    decreases count,
{
    if count > 0 {
        a_trie_is_no_larger_than_its_candidates(candidates, count - 1);
        with_prefixes_is_bounded(
            all_prefixes(candidates, count - 1),
            candidates[count - 1],
            candidates[count - 1].len() as int,
        );
    }
}

/// The number of tokens of the first `count` candidates.
pub open spec fn token_total(candidates: Seq<Seq<i32>>, count: int) -> nat
    decreases count,
{
    if count <= 0 {
        0
    } else {
        token_total(candidates, count - 1) + candidates[count - 1].len()
    }
}

proof fn with_prefixes_is_bounded(known: Seq<Seq<i32>>, tokens: Seq<i32>, depth: int)
    requires
        0 <= depth,
    ensures
        with_prefixes(known, tokens, depth).len() <= known.len() + depth,
    decreases depth,
{
    if depth > 0 {
        with_prefixes_is_bounded(known, tokens, depth - 1);
    }
}

// ---------------------------------------------------------------------------
// Building
// ---------------------------------------------------------------------------

/// Whether the links between the nodes follow the prefixes: the roots and the children of each
/// node are the nodes of the prefixes that are longer by a token, and no prefix is without the
/// one before it.
spec fn links_follow(
    nodes: Seq<CandidateTokenNode>,
    roots: Seq<usize>,
    prefixes: Seq<Seq<i32>>,
) -> bool {
    &&& roots == longer_by_one(prefixes, Seq::empty(), prefixes.len() as int)
    &&& forall|k: int|
        0 <= k < nodes.len() ==> (#[trigger] nodes[k]).children@ == longer_by_one(
            prefixes,
            prefixes[k],
            prefixes.len() as int,
        )
    &&& forall|x: int|
        0 <= x < nodes.len() && (#[trigger] prefixes[x]).len() > 1 ==> prefixes.contains(
            prefixes[x].drop_last(),
        )
}

proof fn longer_prefixes_are_listed(prefixes: Seq<Seq<i32>>, prefix: Seq<i32>, count: int)
    requires
        0 <= count <= prefixes.len(),
        count <= usize::MAX,
    ensures
        forall|i: int|
            0 <= i < longer_by_one(prefixes, prefix, count).len() ==> {
                let x = #[trigger] longer_by_one(prefixes, prefix, count)[i];
                x < count && prefixes[x as int].len() > 0 && prefixes[x as int].drop_last() == prefix
            },
        forall|x: int|
            0 <= x < count && (#[trigger] prefixes[x]).len() > 0 && prefixes[x].drop_last() == prefix
                ==> longer_by_one(prefixes, prefix, count).contains(x as usize),
    decreases count,
{
    if count > 0 {
        longer_prefixes_are_listed(prefixes, prefix, count - 1);
        let before = longer_by_one(prefixes, prefix, count - 1);
        let after = longer_by_one(prefixes, prefix, count);
        assert forall|x: int|
            0 <= x < count && (#[trigger] prefixes[x]).len() > 0 && prefixes[x].drop_last()
                == prefix implies after.contains(x as usize) by {
            if x == count - 1 {
                assert(after[before.len() as int] == x as usize);
            } else {
                let i = choose|i: int| 0 <= i < before.len() && before[i] == x as usize;
                assert(after[i] == x as usize);
            }
        }
    }
}

proof fn earlier_prefixes_stay_listed(
    prefixes: Seq<Seq<i32>>,
    added: Seq<i32>,
    prefix: Seq<i32>,
    count: int,
)
    requires
        0 <= count <= prefixes.len(),
    ensures
        longer_by_one(prefixes.push(added), prefix, count) == longer_by_one(prefixes, prefix, count),
    decreases count,
{
    if count > 0 {
        earlier_prefixes_stay_listed(prefixes, added, prefix, count - 1);
    }
}

/// The prefix of the node, or no token for the root.
spec fn prefix_of(parent: Option<usize>, prefixes: Seq<Seq<i32>>) -> Seq<i32> {
    match parent {
        Some(index) => prefixes[index as int],
        None => Seq::empty(),
    }
}

/// The node of a token behind its parent, if there is one.
fn find_node(
    nodes: &Vec<CandidateTokenNode>,
    roots: &Vec<usize>,
    parent: Option<usize>,
    token: i32,
    Ghost(prefixes): Ghost<Seq<Seq<i32>>>,
) -> (result: Option<usize>)
    requires
        nodes_spell(nodes@, prefixes),
        links_follow(nodes@, roots@, prefixes),
        parent matches Some(index) ==> index < nodes@.len(),
    ensures
        result matches Some(index) ==> index < nodes@.len() && prefixes[index as int] == prefix_of(
            parent,
            prefixes,
        ).push(token),
        result is None ==> !prefixes.contains(prefix_of(parent, prefixes).push(token)),
{
    let total: usize = nodes.len();
    let siblings: &Vec<usize> = match parent {
        Some(index) => &nodes[index].children,
        None => roots,
    };
    let ghost base = prefix_of(parent, prefixes);
    proof {
        assert(siblings@ == longer_by_one(prefixes, base, total as int));
        longer_prefixes_are_listed(prefixes, base, total as int);
        assert forall|i: int| 0 <= i < siblings@.len() implies (#[trigger] siblings@[i])
            < nodes@.len() && prefixes[siblings@[i] as int] == base.push(
            nodes@[siblings@[i] as int].token,
        ) by {
            let x = siblings@[i] as int;
            assert(nodes@[x].token == prefixes[x].last());
            assert(prefixes[x] =~= base.push(prefixes[x].last()));
        }
    }
    for number in 0..siblings.len()
        invariant
            nodes_spell(nodes@, prefixes),
            forall|i: int|
                0 <= i < siblings@.len() ==> (#[trigger] siblings@[i]) < nodes@.len()
                    && prefixes[siblings@[i] as int] == base.push(
                    nodes@[siblings@[i] as int].token,
                ),
            forall|i: int| 0 <= i < number ==> nodes@[#[trigger] siblings@[i] as int].token != token,
            base == prefix_of(parent, prefixes),
    {
        let index: usize = siblings[number];
        if nodes[index].token == token {
            return Some(index);
        }
    }
    proof {
        let wanted = base.push(token);
        if prefixes.contains(wanted) {
            let x = choose|x: int| 0 <= x < prefixes.len() && prefixes[x] == wanted;
            assert(nodes@[x].token == token);
            assert(wanted.drop_last() =~= base);
            assert(siblings@.contains(x as usize));
            let i = choose|i: int| 0 <= i < siblings@.len() && siblings@[i] == x as usize;
            assert(nodes@[siblings@[i] as int].token != token);
        }
    }
    None
}

/// Adds the node of a token behind its parent.
fn add_node(
    nodes: &mut Vec<CandidateTokenNode>,
    roots: &mut Vec<usize>,
    parent: Option<usize>,
    token: i32,
    depth: usize,
    Ghost(prefixes): Ghost<Seq<Seq<i32>>>,
) -> (result: usize)
    requires
        nodes_spell(old(nodes)@, prefixes),
        links_follow(old(nodes)@, old(roots)@, prefixes),
        prefixes.no_duplicates(),
        parent matches Some(index) ==> index < old(nodes)@.len(),
        depth == prefix_of(parent, prefixes).len() + 1,
        !prefixes.contains(prefix_of(parent, prefixes).push(token)),
    ensures
        ({
            let after = prefixes.push(prefix_of(parent, prefixes).push(token));
            &&& nodes_spell(final(nodes)@, after)
            &&& links_follow(final(nodes)@, final(roots)@, after)
            &&& after.no_duplicates()
        }),
        result == old(nodes)@.len(),
        final(nodes)@.len() == old(nodes)@.len() + 1,
        forall|k: int|
            0 <= k < old(nodes)@.len() ==> (#[trigger] final(nodes)@[k]).sequences@ == old(
                nodes,
            )@[k].sequences@,
        final(nodes)@[result as int].sequences@ == Seq::<i32>::empty(),
{
    let ghost base = prefix_of(parent, prefixes);
    let ghost added = base.push(token);
    let ghost after = prefixes.push(added);
    let ghost before = nodes@;
    let index: usize = nodes.len();
    nodes.push(
        CandidateTokenNode { token, depth, sequences: Vec::new(), children: Vec::new() },
    );
    assert(added.drop_last() =~= base);
    assert(added.last() == token);
    match parent {
        Some(place) => {
            nodes[place].children.push(index);
        },
        None => {
            roots.push(index);
        },
    }
    proof {
        assert(index == prefixes.len());
        earlier_prefixes_stay_listed(prefixes, added, Seq::empty(), index as int);
        if let Some(place) = parent {
            assert(prefixes[place as int].len() > 0) by {
                assert(before[place as int].depth == prefixes[place as int].len());
            }
        }
        assert(roots@ == longer_by_one(after, Seq::empty(), after.len() as int));
        assert forall|k: int| 0 <= k < nodes@.len() implies (
        #[trigger] nodes@[k]).children@ == longer_by_one(
            after,
            after[k],
            after.len() as int,
        ) by {
            earlier_prefixes_stay_listed(prefixes, added, after[k], index as int);
            if k < index {
                assert(before[k].depth == prefixes[k].len());
                assert(before[k].children@ == longer_by_one(prefixes, prefixes[k], index as int));
                if let Some(place) = parent {
                    if k != place {
                        assert(prefixes[k] != prefixes[place as int]);
                    }
                }
            } else {
                let listed = longer_by_one(prefixes, added, index as int);
                longer_prefixes_are_listed(prefixes, added, index as int);
                if listed.len() > 0 {
                    let x = listed[0] as int;
                    assert(prefixes[x].drop_last() == added);
                    assert(prefixes.contains(prefixes[x].drop_last()));
                }
                assert(added.drop_last().len() != added.len());
                assert(nodes@[k].children@ =~= listed);
            }
        }
    }
    proof {
        assert forall|k: int|
            #![trigger nodes@[k]]
            #![trigger after[k]]
            0 <= k < nodes@.len() implies after[k].len() > 0 && nodes@[k].token == after[k].last()
            && nodes@[k].depth == after[k].len() by {
            if k < index {
                let node = before[k];
                assert(node.token == prefixes[k].last());
                assert(nodes@[k].token == node.token);
                assert(after[k] == prefixes[k]);
            }
        }
        assert(nodes_spell(nodes@, after));
        assert forall|x: int|
            0 <= x < nodes@.len() && (#[trigger] after[x]).len() > 1 implies after.contains(
            after[x].drop_last(),
        ) by {
            if x < index {
                assert(prefixes[x] == after[x]);
                let k = choose|k: int|
                    0 <= k < prefixes.len() && prefixes[k] == prefixes[x].drop_last();
                assert(after[k] == after[x].drop_last());
            } else {
                match parent {
                    Some(place) => {
                        assert(after[place as int] == base);
                    },
                    None => {},
                }
            }
        }
        assert forall|i: int, j: int| 0 <= i < after.len() && 0 <= j < after.len() && i
            != j implies after[i] != after[j] by {
            if i == index {
                assert(prefixes.contains(prefixes[j]));
            } else if j == index {
                assert(prefixes.contains(prefixes[i]));
            }
        }
    }
    index
}

proof fn no_earlier_candidate_shares_a_new_prefix(
    candidates: Seq<Seq<i32>>,
    prefix: Seq<i32>,
    count: int,
    low: int,
)
    requires
        0 <= low <= count <= candidates.len(),
        prefix.len() > 0,
        !all_prefixes(candidates, count).contains(prefix),
    ensures
        sequences_with(candidates, prefix, low) == Seq::<i32>::empty(),
    decreases low,
{
    if low > 0 {
        no_earlier_candidate_shares_a_new_prefix(candidates, prefix, count, low - 1);
        each_prefix_has_one_node(candidates, count);
        let tokens = candidates[low - 1];
        if prefix.is_prefix_of(tokens) {
            assert(tokens.take(prefix.len() as int) =~= prefix);
        }
    }
}

/// The list with one more number behind it if the condition holds.
spec fn with_number(numbers: Seq<i32>, number: int, holds: bool) -> Seq<i32> {
    if holds {
        numbers.push(number as i32)
    } else {
        numbers
    }
}

/// Adds the tokens of one more candidate.
fn add_candidate(
    nodes: &mut Vec<CandidateTokenNode>,
    roots: &mut Vec<usize>,
    tokens: &Vec<i32>,
    sequence: i32,
    Ghost(candidates): Ghost<Seq<Seq<i32>>>,
) -> (result: Vec<usize>)
    requires
        0 <= sequence < candidates.len(),
        candidates[sequence as int] == tokens@,
        nodes_spell(old(nodes)@, all_prefixes(candidates, sequence as int)),
        links_follow(old(nodes)@, old(roots)@, all_prefixes(candidates, sequence as int)),
        forall|k: int|
            0 <= k < old(nodes)@.len() ==> (#[trigger] old(nodes)@[k]).sequences@ == sequences_with(
                candidates,
                all_prefixes(candidates, sequence as int)[k],
                sequence as int,
            ),
    ensures
        nodes_spell(final(nodes)@, all_prefixes(candidates, sequence + 1)),
        links_follow(final(nodes)@, final(roots)@, all_prefixes(candidates, sequence + 1)),
        forall|k: int|
            0 <= k < final(nodes)@.len() ==> (#[trigger] final(nodes)@[k]).sequences@
                == sequences_with(
                candidates,
                all_prefixes(candidates, sequence + 1)[k],
                sequence + 1,
            ),
        result@.len() == tokens@.len(),
        path_spells(result@, tokens@, all_prefixes(candidates, sequence + 1)),
{
    let ghost count = sequence as int;
    let ghost known = all_prefixes(candidates, count);
    let ghost mut prefixes = known;
    let mut path: Vec<usize> = Vec::new();
    proof {
        each_prefix_has_one_node(candidates, count);
        assert forall|k: int| 0 <= k < nodes@.len() implies !prefixes[k].is_prefix_of(
            tokens@.take(0),
        ) by {
            assert(nodes@[k].depth == prefixes[k].len());
        }
    }
    for depth in 0..tokens.len()
        invariant
            count == sequence,
            0 <= count < candidates.len(),
            candidates[count] == tokens@,
            known == all_prefixes(candidates, count),
            known.no_duplicates(),
            prefixes == with_prefixes(known, tokens@, depth as int),
            prefixes.no_duplicates(),
            nodes_spell(nodes@, prefixes),
            links_follow(nodes@, roots@, prefixes),
            forall|k: int|
                0 <= k < nodes@.len() ==> (#[trigger] nodes@[k]).sequences@ == with_number(
                    sequences_with(candidates, prefixes[k], count),
                    count,
                    prefixes[k].is_prefix_of(tokens@.take(depth as int)),
                ),
            path@.len() == depth,
            path_spells(path@, tokens@, prefixes),
    {
        let token: i32 = tokens[depth];
        let ghost wanted = tokens@.take(depth + 1);
        let parent: Option<usize> = if depth == 0 {
            None
        } else {
            Some(path[depth - 1])
        };
        assert(prefix_of(parent, prefixes) =~= tokens@.take(depth as int));
        assert(prefix_of(parent, prefixes).push(token) =~= wanted);
        let ghost before = prefixes;
        let ghost old_nodes = nodes@;
        let index: usize = match find_node(nodes, roots, parent, token, Ghost(prefixes)) {
            Some(index) => {
                assert(before.contains(wanted)) by {
                    assert(before[index as int] == wanted);
                }
                index
            },
            None => {
                let index: usize = add_node(
                    nodes,
                    roots,
                    parent,
                    token,
                    depth + 1,
                    Ghost(prefixes),
                );
                proof {
                    with_prefixes_grows(known, tokens@, depth as int);
                    if known.contains(wanted) {
                        let k = choose|k: int| 0 <= k < known.len() && known[k] == wanted;
                        assert(before[k] == wanted);
                    }
                    no_earlier_candidate_shares_a_new_prefix(candidates, wanted, count, count);
                    prefixes = prefixes.push(wanted);
                }
                index
            },
        };
        let ghost middle = nodes@;
        proof {
            assert(prefixes == with_prefixes(known, tokens@, depth + 1));
            assert(prefixes[index as int] == wanted);
            assert forall|k: int| 0 <= k < middle.len() implies (
            #[trigger] middle[k]).sequences@ == with_number(
                sequences_with(candidates, prefixes[k], count),
                count,
                prefixes[k].is_prefix_of(tokens@.take(depth as int)),
            ) by {
                if k < old_nodes.len() {
                    assert(prefixes[k] == before[k]);
                    assert(middle[k].sequences@ == old_nodes[k].sequences@);
                } else {
                    assert(prefixes[k] == wanted);
                }
            }
        }
        nodes[index].sequences.push(sequence);
        path.push(index);
        proof {
            assert forall|k: int| 0 <= k < nodes@.len() implies (
            #[trigger] nodes@[k]).sequences@ == with_number(
                sequences_with(candidates, prefixes[k], count),
                count,
                prefixes[k].is_prefix_of(wanted),
            ) by {
                shorter_prefixes(prefixes[k], tokens@, depth as int);
                if k != index {
                    assert(prefixes[k] != wanted);
                    assert(nodes@[k].sequences@ == middle[k].sequences@);
                }
            }
            links_need_no_numbers(middle, nodes@, roots@, prefixes);
            assert forall|d: int| 0 <= d < path@.len() implies (#[trigger] path@[d])
                < prefixes.len() && prefixes[path@[d] as int] == tokens@.take(d + 1) by {
                if d < depth {
                    assert(before[path@[d] as int] == tokens@.take(d + 1));
                }
            }
        }
    }
    proof {
        assert(tokens@.take(tokens@.len() as int) =~= tokens@);
    }
    path
}

/// A prefix of the longer start is a prefix of the shorter one or the longer start itself.
proof fn shorter_prefixes(prefix: Seq<i32>, tokens: Seq<i32>, depth: int)
    requires
        0 <= depth < tokens.len(),
    ensures
        prefix.is_prefix_of(tokens.take(depth + 1)) <==> prefix.is_prefix_of(tokens.take(depth))
            || prefix == tokens.take(depth + 1),
{
    let long = tokens.take(depth + 1);
    let short = tokens.take(depth);
    if prefix.is_prefix_of(long) && prefix.len() <= depth {
        assert(long.subrange(0, prefix.len() as int) =~= short.subrange(0, prefix.len() as int));
    }
    if prefix.is_prefix_of(long) && prefix.len() == depth + 1 {
        assert(long.subrange(0, depth + 1) =~= long);
    }
    if prefix.is_prefix_of(short) {
        assert(long.subrange(0, prefix.len() as int) =~= short.subrange(0, prefix.len() as int));
    }
    if prefix == long {
        assert(long.subrange(0, prefix.len() as int) =~= long);
    }
}

/// The links do not depend on the numbers of the candidates.
proof fn links_need_no_numbers(
    before: Seq<CandidateTokenNode>,
    after: Seq<CandidateTokenNode>,
    roots: Seq<usize>,
    prefixes: Seq<Seq<i32>>,
)
    requires
        nodes_spell(before, prefixes),
        links_follow(before, roots, prefixes),
        before.len() == after.len(),
        forall|k: int|
            0 <= k < before.len() ==> (#[trigger] after[k]).token == before[k].token
                && after[k].depth == before[k].depth && after[k].children@ == before[k].children@,
    ensures
        nodes_spell(after, prefixes),
        links_follow(after, roots, prefixes),
{
    assert forall|k: int|
        #![trigger after[k]]
        #![trigger prefixes[k]]
        0 <= k < after.len() implies prefixes[k].len() > 0 && after[k].token == prefixes[k].last()
        && after[k].depth == prefixes[k].len() by {
        let node = before[k];
        assert(node.token == prefixes[k].last());
        assert(after[k].token == node.token);
    }
    assert(nodes_spell(after, prefixes));
}

/// A path stays right when prefixes are added behind the known ones.
proof fn a_path_stays(
    path: Seq<usize>,
    tokens: Seq<i32>,
    before: Seq<Seq<i32>>,
    after: Seq<Seq<i32>>,
)
    requires
        path_spells(path, tokens, before),
        before.len() <= after.len(),
        forall|k: int| 0 <= k < before.len() ==> #[trigger] after[k] == before[k],
    ensures
        path_spells(path, tokens, after),
{
    assert forall|d: int| 0 <= d < path.len() implies (#[trigger] path[d]) < after.len()
        && after[path[d] as int] == tokens.take(d + 1) by {
        assert(before[path[d] as int] == tokens.take(d + 1));
    }
}

impl CandidateTokenTrie {
    /// The trie of the candidates' tokens.
    pub fn build(candidates: &[Vec<i32>]) -> (result: Self)
        requires
            candidates@.len() <= 0x8000_0000,
        ensures
            result.is_trie_of(token_lists(candidates@)),
    {
        let ghost all = token_lists(candidates@);
        let mut nodes: Vec<CandidateTokenNode> = Vec::new();
        let mut roots: Vec<usize> = Vec::new();
        let mut candidate_paths: Vec<Vec<usize>> = Vec::new();
        for number in 0..candidates.len()
            invariant
                candidates@.len() <= 0x8000_0000,
                all == token_lists(candidates@),
                nodes_spell(nodes@, all_prefixes(all, number as int)),
                links_follow(nodes@, roots@, all_prefixes(all, number as int)),
                forall|k: int|
                    0 <= k < nodes@.len() ==> (#[trigger] nodes@[k]).sequences@ == sequences_with(
                        all,
                        all_prefixes(all, number as int)[k],
                        number as int,
                    ),
                candidate_paths@.len() == number,
                forall|c: int|
                    0 <= c < number ==> (#[trigger] candidate_paths@[c])@.len() == all[c].len()
                        && path_spells(
                        candidate_paths@[c]@,
                        all[c],
                        all_prefixes(all, number as int),
                    ),
        {
            let ghost before = all_prefixes(all, number as int);
            let ghost old_paths = candidate_paths@;
            assert(all[number as int] == candidates@[number as int]@);
            let path: Vec<usize> = add_candidate(
                &mut nodes,
                &mut roots,
                &candidates[number],
                number as i32,
                Ghost(all),
            );
            proof {
                each_prefix_has_one_node(all, number as int);
                with_prefixes_grows(
                    before,
                    all[number as int],
                    all[number as int].len() as int,
                );
            }
            candidate_paths.push(path);
            proof {
                let after = all_prefixes(all, number + 1);
                assert forall|c: int| 0 <= c < number + 1 implies (
                #[trigger] candidate_paths@[c])@.len() == all[c].len() && path_spells(
                    candidate_paths@[c]@,
                    all[c],
                    after,
                ) by {
                    if c < number {
                        assert(candidate_paths@[c] == old_paths[c]);
                        a_path_stays(old_paths[c]@, all[c], before, after);
                    }
                }
            }
        }
        CandidateTokenTrie { nodes, candidate_paths }
    }
}

} // verus!
