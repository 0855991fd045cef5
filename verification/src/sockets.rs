//! Which sockets a process holds, which sockets are connected to the X11
//! server, and how many are both.

use vstd::prelude::*;
use vstd::slice::slice_to_vec;
use vstd::string::StrSliceExecFns;
use vstd::string::StringExecFns;
use crate::text::all_digit_chars;
use crate::text::all_digits;
use crate::text::chars_of;
use crate::text::lines;
use crate::text::spec_lines;
use crate::text::spec_words;
use crate::text::str_eq;
use crate::text::str_views;
use crate::text::string_views;
use crate::text::words;

verus! {

/// A set of socket identifiers. An identifier is a text; two sockets are the
/// same where their identifiers are.
#[derive(Debug)]
pub struct InodeSet {
    items: Vec<String>,
}

impl View for InodeSet {
    type V = Set<Seq<char>>;

    closed spec fn view(&self) -> Set<Seq<char>> {
        string_views(self.items@).to_set()
    }
}

impl InodeSet {
    #[verifier::type_invariant]
    spec fn well_formed(self) -> bool {
        string_views(self.items@).no_duplicates()
    }

    /// The empty set.
    pub fn new() -> (set: InodeSet)
        ensures
            set@ == Set::<Seq<char>>::empty(),
    {
        let set = InodeSet { items: Vec::new() };
        assert(string_views(set.items@).to_set() =~= Set::<Seq<char>>::empty());
        set
    }

    /// The number of identifiers in the set.
    pub fn len(&self) -> (n: usize)
        ensures
            n == self@.len(),
            self@.finite(),
    {
        proof {
            use_type_invariant(self);
            string_views(self.items@).unique_seq_to_set();
            vstd::seq_lib::seq_to_set_is_finite(string_views(self.items@));
        }
        self.items.len()
    }

    /// Whether the set holds nothing.
    pub fn is_empty(&self) -> (r: bool)
        ensures
            r == (self@.len() == 0),
            r == (self@ == Set::<Seq<char>>::empty()),
            self@.finite(),
    {
        let n = self.len();
        proof {
            if n == 0 {
                assert(self@ =~= Set::<Seq<char>>::empty());
            }
        }
        n == 0
    }

    /// Whether the set holds `id`.
    pub fn contains(&self, id: &str) -> (r: bool)
        ensures
            r == self@.contains(id@),
    {
        let ghost all = string_views(self.items@);
        let mut i: usize = 0;
        while i < self.items.len()
            invariant
                i <= self.items@.len(),
                all == string_views(self.items@),
                forall|k: int| 0 <= k < i ==> all[k] != id@,
            decreases self.items@.len() - i,
        {
            if str_eq(self.items[i].as_str(), id) {
                assert(all[i as int] == id@);
                return true;
            }
            i += 1;
        }
        false
    }

    /// Puts `id` into the set.
    pub fn insert(&mut self, id: &str)
        ensures
            final(self)@ == old(self)@.insert(id@),
    {
        proof {
            use_type_invariant(&*self);
        }
        if !self.contains(id) {
            let ghost before = string_views(self.items@);
            let owned = id.to_owned();
            let mut items: Vec<String> = Vec::new();
            assert(string_views(items@) =~= Seq::<Seq<char>>::empty());
            std::mem::swap(&mut self.items, &mut items);
            proof {
                before.lemma_push_to_set_commute(id@);
                assert(string_views(items@.push(owned)) =~= before.push(id@));
            }
            items.push(owned);
            self.items = items;
        } else {
            assert(self@.insert(id@) =~= self@);
        }
    }

    /// The identifiers of the set, each once, in the order in which they
    /// came in.
    pub fn items(&self) -> (items: &Vec<String>)
        ensures
            string_views(items@).no_duplicates(),
            string_views(items@).to_set() == self@,
    {
        proof {
            use_type_invariant(self);
        }
        &self.items
    }
}

/// The sets that a list of sets holds.
pub open spec fn set_views(sets: Seq<InodeSet>) -> Seq<Set<Seq<char>>> {
    sets.map_values(|s: InodeSet| s@)
}

/// What is in at least one of the sets.
pub open spec fn union_of(sets: Seq<Set<Seq<char>>>) -> Set<Seq<char>> {
    Set::new(|id: Seq<char>| exists|i: int| 0 <= i < sets.len() && #[trigger] sets[i].contains(id))
}

/// Whether `s` begins with `prefix`.
pub open spec fn starts_with(s: Seq<char>, prefix: Seq<char>) -> bool {
    s.len() >= prefix.len() && s.take(prefix.len() as int) == prefix
}

/// The identifier of the socket behind a descriptor, read from the target
/// of the descriptor's link: for `socket:[N]` it is `N`, whatever `N` is made
/// of. Any other target is no socket.
pub open spec fn spec_socket_inode(target: Seq<char>) -> Option<Seq<char>> {
    if starts_with(target, "socket:["@) && target.len() > 0 && target.last() == ']' {
        Some(target.subrange(8, target.len() - 1))
    } else {
        None
    }
}

/// The identifiers of the sockets among the link targets `targets`.
pub open spec fn spec_socket_inodes(targets: Seq<Seq<char>>) -> Set<Seq<char>> {
    Set::new(
        |id: Seq<char>|
            exists|i: int|
                0 <= i < targets.len() && #[trigger] spec_socket_inode(targets[i]) == Some(id),
    )
}

/// The address of a socket in the abstract namespace, as the socket listing
/// writes it: the path after an `@`.
pub open spec fn abstract_form(socket_path: Seq<char>) -> Seq<char> {
    seq!['@'] + socket_path
}

/// The peer of the X11 socket in one line of the socket listing, read from
/// the words of the line from position `from` on.
///
/// The first word that is the socket's address, in either form, decides,
/// unless a `*` stands two words after it and a word that is no number three
/// words after it: then the next one is looked for. It gives the word three
/// words after it, where a `*` stands two words after it; nothing where it
/// does not, or where the line ends before.
pub open spec fn spec_peer_from(words: Seq<Seq<char>>, socket_path: Seq<char>, from: int) -> Option<
    Seq<char>,
>
    decreases words.len() - from,
{
    if from < 0 || from >= words.len() {
        None
    } else if words[from] != socket_path && words[from] != abstract_form(socket_path) {
        spec_peer_from(words, socket_path, from + 1)
    } else if from + 3 >= words.len() {
        None
    } else if words[from + 2] != "*"@ {
        None
    } else if all_digits(words[from + 3]) {
        Some(words[from + 3])
    } else {
        spec_peer_from(words, socket_path, from + 1)
    }
}

/// The peer of the X11 socket in one line of the socket listing.
pub open spec fn spec_peer(words: Seq<Seq<char>>, socket_path: Seq<char>) -> Option<Seq<char>> {
    spec_peer_from(words, socket_path, 0)
}

/// The peers of the X11 socket in one output of the socket listing: those
/// of its lines.
pub open spec fn spec_peers_in(text: Seq<char>, socket_path: Seq<char>) -> Set<Seq<char>> {
    Set::new(
        |id: Seq<char>|
            exists|l: int|
                0 <= l < spec_lines(text).len() && #[trigger] spec_peer(
                    spec_words(spec_lines(text)[l]),
                    socket_path,
                ) == Some(id),
    )
}

/// The peers of the X11 socket in a list of outputs of the socket listing.
pub open spec fn spec_peers(outputs: Seq<Seq<char>>, socket_path: Seq<char>) -> Set<Seq<char>> {
    Set::new(
        |id: Seq<char>|
            exists|o: int|
                0 <= o < outputs.len() && #[trigger] spec_peers_in(outputs[o], socket_path).contains(
                    id,
                ),
    )
}

/// The number of connections to the X11 server that the processes hold:
/// the sockets that are both among the peers of the X11 socket and among
/// those that some process holds. None without a process or without a peer.
pub open spec fn spec_count(
    app_pids: Seq<i32>,
    peers: Set<Seq<char>>,
    held: Seq<Set<Seq<char>>>,
) -> nat {
    if app_pids.len() == 0 || peers.len() == 0 {
        0
    } else {
        peers.intersect(union_of(held)).len()
    }
}

/// The identifier of the socket behind a descriptor whose link points to
/// `text`, if it is a socket.
pub fn parse_socket_inode<'a>(text: &'a str) -> (inode: Option<&'a str>)
    ensures
        match inode {
            Some(id) => spec_socket_inode(text@) == Some(id@),
            None => spec_socket_inode(text@) is None,
        },
{
    proof {
        reveal_strlit("socket:[");
    }
    let n: usize = text.unicode_len();
    if n < 9 {
        assert(spec_socket_inode(text@) is None) by {
            if starts_with(text@, "socket:["@) && text@.len() > 0 {
                assert(text@.take(8)[7] == '[');
            }
        }
        return None;
    }
    if !str_eq(text.substring_char(0, 8), "socket:[") {
        assert(text@.subrange(0, 8) =~= text@.take(8));
        return None;
    }
    assert(text@.subrange(0, 8) =~= text@.take(8));
    if text.get_char(n - 1) != ']' {
        return None;
    }
    Some(text.substring_char(8, n - 1))
}

/// The identifiers of the sockets that a process holds, given the targets
/// of the links of its descriptors. Targets that are no sockets are passed
/// over.
pub fn socket_inodes_for_pid(targets: &Vec<String>) -> (inodes: InodeSet)
    ensures
        inodes@ == spec_socket_inodes(string_views(targets@)),
{
    let ghost all = string_views(targets@);
    let mut inodes = InodeSet::new();
    let mut i: usize = 0;
    assert(inodes@ =~= spec_socket_inodes(all.take(0)));
    while i < targets.len()
        invariant
            i <= targets@.len(),
            all == string_views(targets@),
            inodes@ == spec_socket_inodes(all.take(i as int)),
        decreases targets@.len() - i,
    {
        let ghost before = inodes@;
        let ghost shorter = all.take(i as int);
        let ghost longer = all.take(i + 1);
        let found = parse_socket_inode(targets[i].as_str());
        match found {
            Some(id) => {
                inodes.insert(id);
            },
            None => {},
        }
        proof {
            assert(longer =~= shorter.push(all[i as int]));
            assert forall|id: Seq<char>| inodes@.contains(id) <==> spec_socket_inodes(
                longer,
            ).contains(id) by {
                if before.contains(id) {
                    let k = choose|k: int|
                        0 <= k < shorter.len() && #[trigger] spec_socket_inode(shorter[k]) == Some(
                            id,
                        );
                    assert(spec_socket_inode(longer[k]) == Some(id));
                }
                if spec_socket_inode(all[i as int]) == Some(id) {
                    assert(spec_socket_inode(longer[i as int]) == Some(id));
                }
                if spec_socket_inodes(longer).contains(id) {
                    let k = choose|k: int|
                        0 <= k < longer.len() && #[trigger] spec_socket_inode(longer[k]) == Some(
                            id,
                        );
                    if k < i {
                        assert(spec_socket_inode(shorter[k]) == Some(id));
                    }
                }
            }
            assert(inodes@ =~= spec_socket_inodes(longer));
        }
        i += 1;
    }
    assert(all.take(i as int) =~= all);
    inodes
}

/// The peer of the X11 socket in one line of the socket listing, given the
/// words of the line: see [`spec_peer_from`].
pub fn extract_peer_inode<'a>(tokens: &'a [&'a str], socket_path: &str) -> (peer: Option<&'a str>)
    ensures
        match peer {
            Some(id) => spec_peer(str_views(tokens@), socket_path@) == Some(id@),
            None => spec_peer(str_views(tokens@), socket_path@) is None,
        },
{
    proof {
        reveal_strlit("@");
        assert("@"@ =~= seq!['@']);
    }
    let ghost all = str_views(tokens@);
    let with_at = String::from_str("@").concat(socket_path);
    let mut index: usize = 0;
    while index < tokens.len()
        invariant
            index <= tokens@.len(),
            all == str_views(tokens@),
            with_at@ == abstract_form(socket_path@),
            spec_peer_from(all, socket_path@, index as int) == spec_peer(all, socket_path@),
        decreases tokens@.len() - index,
    {
        let token: &str = tokens[index];
        assert(all[index as int] == token@);
        if str_eq(token, socket_path) || str_eq(token, with_at.as_str()) {
            if tokens.len() - index <= 3 {
                return None;
            }
            assert(all[index + 2] == tokens@[index + 2]@);
            assert(all[index + 3] == tokens@[index + 3]@);
            if !str_eq(tokens[index + 2], "*") {
                return None;
            }
            let peer: &'a str = tokens[index + 3];
            let peer_chars = chars_of(peer);
            if all_digit_chars(&peer_chars) {
                return Some(peer);
            }
        }
        index += 1;
    }
    None
}

/// Puts into `peers` the peers of the X11 socket that one output of the
/// socket listing names.
fn collect_peers(text: &str, socket_path: &str, peers: &mut InodeSet)
    ensures
        final(peers)@ == old(peers)@.union(spec_peers_in(text@, socket_path@)),
{
    let ghost start = peers@;
    let ghost all = spec_lines(text@);
    let rows = lines(text);
    let mut l: usize = 0;
    while l < rows.len()
        invariant
            l <= rows@.len(),
            str_views(rows@) == all,
            all == spec_lines(text@),
            forall|id: Seq<char>|
                #![trigger peers@.contains(id)]
                peers@.contains(id) <==> start.contains(id) || exists|k: int|
                    0 <= k < l && #[trigger] spec_peer(spec_words(all[k]), socket_path@) == Some(
                        id,
                    ),
        decreases rows@.len() - l,
    {
        let row: &str = rows[l];
        assert(all[l as int] == row@);
        let tokens = words(row);
        let found = extract_peer_inode(tokens.as_slice(), socket_path);
        let ghost before = peers@;
        match found {
            Some(id) => {
                peers.insert(id);
            },
            None => {},
        }
        proof {
            assert forall|id: Seq<char>|
                #![trigger peers@.contains(id)]
                peers@.contains(id) <==> start.contains(id) || exists|k: int|
                    0 <= k < l + 1 && #[trigger] spec_peer(spec_words(all[k]), socket_path@)
                        == Some(id) by {
                if before.contains(id) && !start.contains(id) {
                    let k = choose|k: int|
                        0 <= k < l && #[trigger] spec_peer(spec_words(all[k]), socket_path@)
                            == Some(id);
                    assert(0 <= k < l + 1);
                }
                if spec_peer(spec_words(all[l as int]), socket_path@) == Some(id) {
                    assert(peers@.contains(id));
                }
            }
        }
        l += 1;
    }
    assert(peers@ =~= start.union(spec_peers_in(text@, socket_path@)));
}

/// The addresses to ask the socket listing about: the X11 socket in the
/// abstract namespace and on the file system, in this order. None where
/// there is no process whose connections could be counted.
pub fn peer_query_sources(app_pids: &[i32], socket_path: &str) -> (sources: Vec<String>)
    ensures
        string_views(sources@) == (if app_pids@.len() == 0 {
            Seq::<Seq<char>>::empty()
        } else {
            seq![abstract_form(socket_path@), socket_path@]
        }),
{
    let mut sources: Vec<String> = Vec::new();
    if app_pids.len() > 0 {
        proof {
            reveal_strlit("@");
            assert("@"@ =~= seq!['@']);
        }
        sources.push(String::from_str("@").concat(socket_path));
        sources.push(socket_path.to_owned());
        assert(string_views(sources@) =~= seq![abstract_form(socket_path@), socket_path@]);
    } else {
        assert(string_views(sources@) =~= Seq::<Seq<char>>::empty());
    }
    sources
}

/// The arguments with which the socket listing `ss` is asked for the
/// connections of Unix sockets from the address `source`: numbers as they
/// are, with the processes, without a header.
pub fn listing_args(source: &str) -> (args: Vec<String>)
    ensures
        string_views(args@) == seq!["-xnpH"@, "src"@, source@],
{
    let mut args: Vec<String> = Vec::new();
    args.push(String::from_str("-xnpH"));
    args.push(String::from_str("src"));
    args.push(source.to_owned());
    assert(string_views(args@) =~= seq!["-xnpH"@, "src"@, source@]);
    args
}

/// The identifiers of the sockets connected to the X11 socket, read from
/// the outputs of the socket listing, one for each address that could be
/// asked about.
pub fn peer_inodes_on_x11_socket(socket_path: &str, outputs: &Vec<String>) -> (peers: InodeSet)
    ensures
        peers@ == spec_peers(string_views(outputs@), socket_path@),
{
    let ghost all = string_views(outputs@);
    let mut peers = InodeSet::new();
    let mut o: usize = 0;
    while o < outputs.len()
        invariant
            o <= outputs@.len(),
            all == string_views(outputs@),
            forall|id: Seq<char>|
                #![trigger peers@.contains(id)]
                peers@.contains(id) <==> exists|k: int|
                    0 <= k < o && #[trigger] spec_peers_in(all[k], socket_path@).contains(id),
        decreases outputs@.len() - o,
    {
        let ghost before = peers@;
        assert(all[o as int] == outputs@[o as int]@);
        collect_peers(outputs[o].as_str(), socket_path, &mut peers);
        proof {
            assert forall|id: Seq<char>|
                #![trigger peers@.contains(id)]
                peers@.contains(id) <==> exists|k: int|
                    0 <= k < o + 1 && #[trigger] spec_peers_in(all[k], socket_path@).contains(
                        id,
                    ) by {
                if before.contains(id) {
                    let k = choose|k: int|
                        0 <= k < o && #[trigger] spec_peers_in(all[k], socket_path@).contains(id);
                    assert(0 <= k < o + 1);
                }
                if spec_peers_in(all[o as int], socket_path@).contains(id) {
                    assert(peers@.contains(id));
                }
            }
        }
        o += 1;
    }
    assert(peers@ =~= spec_peers(all, socket_path@));
    peers
}

/// The processes whose descriptors are to be read: all of them, or none
/// where the X11 socket has no peer that one of them could hold.
pub fn pids_to_scan(app_pids: &[i32], peers: &InodeSet) -> (pids: Vec<i32>)
    ensures
        pids@ == (if peers@.len() == 0 {
            Seq::<i32>::empty()
        } else {
            app_pids@
        }),
{
    if peers.is_empty() {
        Vec::new()
    } else {
        slice_to_vec(app_pids)
    }
}

/// Whether one of `held` holds `id`.
fn held_by_any(held: &Vec<InodeSet>, id: &str) -> (r: bool)
    ensures
        r == union_of(set_views(held@)).contains(id@),
{
    let ghost all = set_views(held@);
    let mut i: usize = 0;
    while i < held.len()
        invariant
            i <= held@.len(),
            all == set_views(held@),
            forall|k: int| 0 <= k < i ==> !(#[trigger] all[k]).contains(id@),
        decreases held@.len() - i,
    {
        assert(all[i as int] == held@[i as int]@);
        if held[i].contains(id) {
            return true;
        }
        i += 1;
    }
    false
}

/// The number of connections to the X11 server that the processes
/// `app_pids` hold: see [`spec_count`].
///
/// `peers` are the sockets connected to the X11 socket, and `held` the
/// sockets that each process holds, as far as they were read.
pub fn count_app_x11_connections(app_pids: &[i32], peers: &InodeSet, held: &Vec<InodeSet>) -> (count:
    usize)
    ensures
        count == spec_count(app_pids@, peers@, set_views(held@)),
        app_pids@.len() == 0 ==> count == 0,
        peers@.len() == 0 ==> count == 0,
{
    if app_pids.len() == 0 {
        return 0;
    }
    if peers.is_empty() {
        return 0;
    }
    let ghost all = union_of(set_views(held@));
    let items = peers.items();
    let ghost ids = string_views(items@);
    let mut common = InodeSet::new();
    let mut i: usize = 0;
    while i < items.len()
        invariant
            i <= items@.len(),
            ids == string_views(items@),
            all == union_of(set_views(held@)),
            forall|id: Seq<char>|
                #![trigger common@.contains(id)]
                common@.contains(id) <==> ids.take(i as int).contains(id) && all.contains(id),
        decreases items@.len() - i,
    {
        let ghost before = common@;
        let id: &str = items[i].as_str();
        assert(ids[i as int] == id@);
        if held_by_any(held, id) {
            common.insert(id);
        }
        proof {
            let shorter = ids.take(i as int);
            let longer = ids.take(i + 1);
            assert(longer =~= shorter.push(id@));
            assert forall|x: Seq<char>|
                #![trigger common@.contains(x)]
                common@.contains(x) <==> longer.contains(x) && all.contains(x) by {
                if shorter.contains(x) {
                    let k = choose|k: int| 0 <= k < shorter.len() && shorter[k] == x;
                    assert(longer[k] == x);
                }
                if x == id@ {
                    assert(longer[i as int] == x);
                }
                if longer.contains(x) && x != id@ {
                    let k = choose|k: int| 0 <= k < longer.len() && longer[k] == x;
                    assert(shorter[k] == x);
                }
            }
        }
        i += 1;
    }
    assert(ids.take(i as int) =~= ids);
    assert(common@ =~= peers@.intersect(all));
    common.len()
}

/// Without a process, or without a peer of the X11 socket, no connection
/// is counted, whatever the processes hold.
pub proof fn lemma_nothing_to_count(
    app_pids: Seq<i32>,
    peers: Set<Seq<char>>,
    held: Seq<Set<Seq<char>>>,
)
    ensures
        spec_count(Seq::empty(), peers, held) == 0,
        spec_count(app_pids, Set::empty(), held) == 0,
{
}

/// The count depends on which sockets are held, not on the process that
/// holds each: two lists of held sockets with the same sockets in all give
/// the same count.
pub proof fn lemma_count_by_union(
    app_pids: Seq<i32>,
    peers: Set<Seq<char>>,
    held: Seq<Set<Seq<char>>>,
    other: Seq<Set<Seq<char>>>,
)
    requires
        forall|id: Seq<char>| union_of(held).contains(id) <==> union_of(other).contains(id),
    ensures
        spec_count(app_pids, peers, held) == spec_count(app_pids, peers, other),
{
    assert(union_of(held) =~= union_of(other));
}

/// The count is never larger than the number of peers.
pub proof fn lemma_count_bounded(
    app_pids: Seq<i32>,
    peers: Set<Seq<char>>,
    held: Seq<Set<Seq<char>>>,
)
    requires
        peers.finite(),
    ensures
        spec_count(app_pids, peers, held) <= peers.len(),
{
    vstd::set_lib::lemma_len_intersect(peers, union_of(held));
}

/// The peer that a line names is a number: where none of the words is empty,
/// the identifier is made of digits, at least one.
pub proof fn lemma_peer_is_number(words: Seq<Seq<char>>, socket_path: Seq<char>, from: int)
    requires
        forall|k: int| 0 <= k < words.len() ==> (#[trigger] words[k]).len() > 0,
    ensures
        spec_peer_from(words, socket_path, from) matches Some(id) ==> id.len() > 0 && all_digits(
            id,
        ),
    decreases words.len() - from,
{
    if 0 <= from < words.len() {
        lemma_peer_is_number(words, socket_path, from + 1);
    }
}

/// Every peer read from the socket listing is a number: an identifier
/// made of digits, at least one.
pub proof fn lemma_peers_are_numbers(outputs: Seq<Seq<char>>, socket_path: Seq<char>)
    ensures
        forall|id: Seq<char>| #[trigger]
            spec_peers(outputs, socket_path).contains(id) ==> id.len() > 0 && all_digits(id),
{
    assert forall|id: Seq<char>| #[trigger]
        spec_peers(outputs, socket_path).contains(id) implies id.len() > 0 && all_digits(id) by {
        let o = choose|o: int|
            0 <= o < outputs.len() && #[trigger] spec_peers_in(outputs[o], socket_path).contains(
                id,
            );
        let rows = spec_lines(outputs[o]);
        let l = choose|l: int|
            0 <= l < rows.len() && #[trigger] spec_peer(spec_words(rows[l]), socket_path) == Some(
                id,
            );
        crate::text::lemma_words(rows[l]);
        lemma_peer_is_number(spec_words(rows[l]), socket_path, 0);
    }
}

} // verus!
