//! Paths as text.
//!
//! A path is a string whose separator is `/`. This module says what the
//! components of such a string are, which of them is the terminal one, and how
//! two paths compare, and computes each of these.

use vstd::prelude::*;
use vstd::string::StrSliceExecFns;

verus! {

/// One component of a path.
pub ghost enum Component {
    /// The root, written as a leading separator.
    Root,
    /// The current directory, written `.` at the very start of a path.
    Current,
    /// The parent directory, written `..`.
    Parent,
    /// Any other name.
    Normal(Seq<char>),
}

/// The executable form of a [`Component`].
#[derive(Debug)]
pub enum PathPart {
    Root,
    Current,
    Parent,
    Normal(Vec<char>),
}

impl View for PathPart {
    type V = Component;

    open spec fn view(&self) -> Component {
        match self {
            PathPart::Root => Component::Root,
            PathPart::Current => Component::Current,
            PathPart::Parent => Component::Parent,
            PathPart::Normal(name) => Component::Normal(name@),
        }
    }
}

/// The components that a sequence of parts stands for.
pub open spec fn parts_view(parts: Seq<PathPart>) -> Seq<Component> {
    parts.map_values(|p: PathPart| p@)
}

/// The separator between the components of a path.
pub open spec fn is_separator(c: char) -> bool {
    c == '/'
}

/// The text of a path cut at every separator. There is always at least one
/// piece; a piece is empty where two separators meet or the text starts or
/// ends with one.
pub open spec fn pieces(s: Seq<char>) -> Seq<Seq<char>>
    decreases s.len(),
{
    if s.len() == 0 {
        seq![Seq::<char>::empty()]
    } else {
        let before = pieces(s.drop_last());
        if is_separator(s.last()) {
            before.push(Seq::<char>::empty())
        } else {
            before.update(before.len() - 1, before.last().push(s.last()))
        }
    }
}

/// The component that the piece at position `index` contributes, if any:
/// empty pieces contribute nothing, and `.` only at the start of the path.
pub open spec fn piece_component(piece: Seq<char>, index: int) -> Option<Component> {
    if piece.len() == 0 {
        None
    } else if piece =~= seq!['.'] {
        if index == 0 {
            Some(Component::Current)
        } else {
            None
        }
    } else if piece =~= seq!['.', '.'] {
        Some(Component::Parent)
    } else {
        Some(Component::Normal(piece))
    }
}

/// The components that a sequence of pieces contributes, in order.
pub open spec fn named(ps: Seq<Seq<char>>) -> Seq<Component>
    decreases ps.len(),
{
    if ps.len() == 0 {
        Seq::<Component>::empty()
    } else {
        let before = named(ps.drop_last());
        match piece_component(ps.last(), ps.len() - 1) {
            Some(c) => before.push(c),
            None => before,
        }
    }
}

/// Whether the path starts at the root.
pub open spec fn has_root(s: Seq<char>) -> bool {
    s.len() > 0 && is_separator(s[0])
}

/// The components of a path: the root if the path starts with a separator,
/// then what each piece contributes.
pub open spec fn components(s: Seq<char>) -> Seq<Component> {
    if has_root(s) {
        seq![Component::Root] + named(pieces(s))
    } else {
        named(pieces(s))
    }
}

/// The terminal component of a path, where it is an ordinary name.
pub open spec fn terminal_name(s: Seq<char>) -> Option<Seq<char>> {
    let cs = components(s);
    if cs.len() > 0 && cs.last() is Normal {
        Some(cs.last()->Normal_0)
    } else {
        None
    }
}

/// The characters of `s`, in order.
#[verifier::loop_isolation(false)]
pub fn chars_of(s: &str) -> (v: Vec<char>)
    ensures
        v@ == s@,
{
    let mut v: Vec<char> = Vec::new();
    for c in it: s.chars()
        invariant
            it.seq() == s@,
            v@ == it.seq().take(it.index()),
    {
        v.push(c);
    }
    v
}

/// `pieces` is never empty.
pub proof fn lemma_pieces_nonempty(s: Seq<char>)
    ensures
        pieces(s).len() >= 1,
    decreases s.len(),
{
    if s.len() > 0 {
        lemma_pieces_nonempty(s.drop_last());
    }
}

/// The part that a finished piece contributes.
fn part_of_piece(piece: Vec<char>, first: bool) -> (r: Option<PathPart>)
    ensures
        match piece_component(piece@, if first { 0int } else { 1int }) {
            Some(c) => r is Some && r->Some_0@ == c,
            None => r is None,
        },
{
    let n = piece.len();
    if n == 0 {
        None
    } else if n == 1 && piece[0] == '.' {
        assert(piece@ =~= seq!['.']);
        if first {
            Some(PathPart::Current)
        } else {
            None
        }
    } else if n == 2 && piece[0] == '.' && piece[1] == '.' {
        assert(piece@ =~= seq!['.', '.']);
        Some(PathPart::Parent)
    } else {
        assert(!(piece@ =~= seq!['.'])) by {
            if piece@ =~= seq!['.'] {
                assert(piece@.len() == 1);
                assert(piece@[0] == '.');
            }
        }
        assert(!(piece@ =~= seq!['.', '.'])) by {
            if piece@ =~= seq!['.', '.'] {
                assert(piece@.len() == 2);
                assert(piece@[0] == '.');
                assert(piece@[1] == '.');
            }
        }
        Some(PathPart::Normal(piece))
    }
}

/// Splits a path into its components.
pub fn split_components(path: &str) -> (parts: Vec<PathPart>)
    ensures
        parts_view(parts@) == components(path@),
{
    let chars = chars_of(path);
    let n = chars.len();
    let mut parts: Vec<PathPart> = Vec::new();
    if n > 0 && chars[0] == '/' {
        parts.push(PathPart::Root);
    }
    let ghost lead = parts_view(parts@);
    let mut cur: Vec<char> = Vec::new();
    let mut first = true;
    let mut i: usize = 0;
    proof {
        assert(chars@.take(0) =~= Seq::<char>::empty());
        assert(pieces(chars@.take(0)).drop_last() =~= Seq::<Seq<char>>::empty());
        assert(parts_view(parts@) =~= lead + named(pieces(chars@.take(0)).drop_last()));
    }
    while i < n
        invariant
            n == chars.len(),
            chars@ == path@,
            i <= n,
            lead == (if has_root(path@) { seq![Component::Root] } else { Seq::<Component>::empty() }),
            pieces(chars@.take(i as int)).len() >= 1,
            cur@ == pieces(chars@.take(i as int)).last(),
            first == (pieces(chars@.take(i as int)).len() == 1),
            parts_view(parts@) == lead + named(pieces(chars@.take(i as int)).drop_last()),
        decreases n - i,
    {
        let c = chars[i];
        let ghost before = pieces(chars@.take(i as int));
        let ghost old_parts = parts@;
        proof {
            assert(chars@.take(i + 1).drop_last() =~= chars@.take(i as int));
            assert(chars@.take(i + 1).last() == c);
            lemma_pieces_nonempty(chars@.take(i + 1));
        }
        if c == '/' {
            let mut done: Vec<char> = Vec::new();
            std::mem::swap(&mut cur, &mut done);
            let part = part_of_piece(done, first);
            proof {
                let after = pieces(chars@.take(i + 1));
                assert(after == before.push(Seq::<char>::empty()));
                assert(after.drop_last() =~= before);
                assert(before.drop_last().push(before.last()) =~= before);
                assert(before.len() - 1 == 0 <==> first);
                assert(piece_component(before.last(), before.len() - 1) == piece_component(
                    before.last(),
                    if first { 0int } else { 1int },
                ));
            }
            match part {
                Some(p) => {
                    parts.push(p);
                    proof {
                        assert(parts_view(parts@) =~= parts_view(old_parts).push(p@));
                        assert(parts_view(parts@) =~= lead + named(before));
                    }
                },
                None => {},
            }
            first = false;
        } else {
            cur.push(c);
            proof {
                let after = pieces(chars@.take(i + 1));
                assert(after == before.update(before.len() - 1, before.last().push(c)));
                assert(after.drop_last() =~= before.drop_last());
            }
        }
        i = i + 1;
    }
    proof {
        assert(chars@.take(n as int) =~= chars@);
        let all = pieces(path@);
        assert(all.drop_last().push(all.last()) =~= all);
        assert(piece_component(all.last(), all.len() - 1) == piece_component(
            all.last(),
            if first { 0int } else { 1int },
        ));
    }
    let ghost old_parts = parts@;
    match part_of_piece(cur, first) {
        Some(p) => {
            parts.push(p);
            proof {
                assert(parts_view(parts@) =~= parts_view(old_parts).push(p@));
            }
        },
        None => {},
    }
    proof {
        assert(parts_view(parts@) =~= lead + named(pieces(path@)));
        assert(Seq::<Component>::empty() + named(pieces(path@)) =~= named(pieces(path@)));
    }
    parts
}


/// The name of the directories that are looked for.
pub open spec fn node_modules() -> Seq<char> {
    seq!['n', 'o', 'd', 'e', '_', 'm', 'o', 'd', 'u', 'l', 'e', 's']
}

/// Whether two texts hold the same characters.
pub fn same_text(a: &Vec<char>, b: &Vec<char>) -> (r: bool)
    ensures
        r == (a@ == b@),
{
    if a.len() != b.len() {
        return false;
    }
    let mut i: usize = 0;
    while i < a.len()
        invariant
            a.len() == b.len(),
            i <= a.len(),
            a@.take(i as int) == b@.take(i as int),
        decreases a.len() - i,
    {
        if a[i] != b[i] {
            return false;
        }
        proof {
            assert(a@.take(i + 1) =~= a@.take(i as int).push(a@[i as int]));
            assert(b@.take(i + 1) =~= b@.take(i as int).push(b@[i as int]));
        }
        i = i + 1;
    }
    proof {
        assert(a@.take(a.len() as int) =~= a@);
        assert(b@.take(b.len() as int) =~= b@);
    }
    true
}

/// Whether `name` is `node_modules`.
pub fn is_node_modules(name: &Vec<char>) -> (r: bool)
    ensures
        r == (name@ == node_modules()),
{
    let wanted = chars_of("node_modules");
    proof {
        reveal_strlit("node_modules");
        assert(wanted@ =~= node_modules());
    }
    same_text(name, &wanted)
}

/// Whether the last of the parts is the name `node_modules`.
pub fn parts_end_in_node_modules(parts: &Vec<PathPart>) -> (r: bool)
    ensures
        r == (parts_view(parts@).len() > 0 && parts_view(parts@).last() == Component::Normal(
            node_modules(),
        )),
{
    let n = parts.len();
    if n == 0 {
        return false;
    }
    assert(parts_view(parts@).last() == parts@[n - 1]@);
    match &parts[n - 1] {
        PathPart::Normal(name) => is_node_modules(name),
        _ => false,
    }
}

/// Whether the terminal component of `path` is the name `node_modules`.
pub fn ends_with_node_modules(path: &str) -> (r: bool)
    ensures
        r == (terminal_name(path@) == Some(node_modules())),
{
    let parts = split_components(path);
    parts_end_in_node_modules(&parts)
}

/// Whether the path starts at the root.
pub fn is_absolute(path: &str) -> (r: bool)
    ensures
        r == has_root(path@),
{
    let chars = chars_of(path);
    chars.len() > 0 && chars[0] == '/'
}

/// No piece contributes the root.
pub proof fn lemma_named_without_root(ps: Seq<Seq<char>>)
    ensures
        forall|i: int| 0 <= i < named(ps).len() ==> !(#[trigger] named(ps)[i] is Root),
    decreases ps.len(),
{
    if ps.len() > 0 {
        lemma_named_without_root(ps.drop_last());
    }
}

/// A path starts at the root exactly if its first component is the root.
pub proof fn lemma_root_component(s: Seq<char>)
    ensures
        has_root(s) <==> (components(s).len() > 0 && components(s)[0] == Component::Root),
{
    lemma_named_without_root(pieces(s));
    if !has_root(s) && components(s).len() > 0 {
        assert(!(named(pieces(s))[0] is Root));
    }
}

/// The place of a component's kind in the order of components: the root comes
/// before the current directory, that before the parent directory, and that
/// before every name.
pub open spec fn rank(c: Component) -> int {
    match c {
        Component::Root => 0,
        Component::Current => 1,
        Component::Parent => 2,
        Component::Normal(_) => 3,
    }
}

/// The name that a component carries; empty for the three special kinds.
pub open spec fn name_of(c: Component) -> Seq<char> {
    match c {
        Component::Normal(name) => name,
        _ => Seq::<char>::empty(),
    }
}

/// Whether `a` comes strictly before `b` in lexicographic order, characters
/// compared by their code points.
pub open spec fn text_before(a: Seq<char>, b: Seq<char>) -> bool
    decreases a.len(),
{
    if b.len() == 0 {
        false
    } else if a.len() == 0 {
        true
    } else if a[0] != b[0] {
        a[0] < b[0]
    } else {
        text_before(a.drop_first(), b.drop_first())
    }
}

/// Whether component `a` comes strictly before component `b`: by kind first,
/// then by name.
pub open spec fn component_before(a: Component, b: Component) -> bool {
    rank(a) < rank(b) || (rank(a) == rank(b) && text_before(name_of(a), name_of(b)))
}

/// Whether the component sequence `a` comes strictly before `b` in
/// lexicographic order.
pub open spec fn components_before(a: Seq<Component>, b: Seq<Component>) -> bool
    decreases a.len(),
{
    if b.len() == 0 {
        false
    } else if a.len() == 0 {
        true
    } else if a[0] != b[0] {
        component_before(a[0], b[0])
    } else {
        components_before(a.drop_first(), b.drop_first())
    }
}

/// Whether path `a` comes strictly before path `b`: the two compare as
/// sequences of components, not as strings.
pub open spec fn path_before(a: Seq<char>, b: Seq<char>) -> bool {
    components_before(components(a), components(b))
}

/// No text comes before itself.
pub proof fn lemma_text_before_irreflexive(a: Seq<char>)
    ensures
        !text_before(a, a),
    decreases a.len(),
{
    if a.len() > 0 {
        lemma_text_before_irreflexive(a.drop_first());
    }
}

/// `text_before` is transitive.
pub proof fn lemma_text_before_transitive(a: Seq<char>, b: Seq<char>, c: Seq<char>)
    requires
        text_before(a, b),
        text_before(b, c),
    ensures
        text_before(a, c),
    decreases a.len(),
{
    if a.len() > 0 && a[0] == b[0] && b[0] == c[0] {
        lemma_text_before_transitive(a.drop_first(), b.drop_first(), c.drop_first());
    }
}

/// Of two different texts one comes before the other.
pub proof fn lemma_text_before_total(a: Seq<char>, b: Seq<char>)
    ensures
        a == b || text_before(a, b) || text_before(b, a),
    decreases a.len(),
{
    if a.len() > 0 && b.len() > 0 && a[0] == b[0] {
        lemma_text_before_total(a.drop_first(), b.drop_first());
        if a.drop_first() == b.drop_first() {
            assert(a =~= seq![a[0]] + a.drop_first());
            assert(b =~= seq![b[0]] + b.drop_first());
        }
    } else if a.len() == 0 && b.len() == 0 {
        assert(a =~= b);
    }
}

/// No component comes before itself.
pub proof fn lemma_component_before_irreflexive(a: Component)
    ensures
        !component_before(a, a),
{
    lemma_text_before_irreflexive(name_of(a));
}

/// `component_before` is transitive.
pub proof fn lemma_component_before_transitive(a: Component, b: Component, c: Component)
    requires
        component_before(a, b),
        component_before(b, c),
    ensures
        component_before(a, c),
{
    if rank(a) == rank(b) && rank(b) == rank(c) {
        lemma_text_before_transitive(name_of(a), name_of(b), name_of(c));
    }
}

/// Of two different components one comes before the other.
pub proof fn lemma_component_before_total(a: Component, b: Component)
    ensures
        a == b || component_before(a, b) || component_before(b, a),
{
    lemma_text_before_total(name_of(a), name_of(b));
}

/// No component sequence comes before itself.
pub proof fn lemma_components_before_irreflexive(a: Seq<Component>)
    ensures
        !components_before(a, a),
    decreases a.len(),
{
    if a.len() > 0 {
        lemma_components_before_irreflexive(a.drop_first());
    }
}

/// `components_before` is transitive.
pub proof fn lemma_components_before_transitive(
    a: Seq<Component>,
    b: Seq<Component>,
    c: Seq<Component>,
)
    requires
        components_before(a, b),
        components_before(b, c),
    ensures
        components_before(a, c),
    decreases a.len(),
{
    if a.len() > 0 {
        if a[0] == b[0] && b[0] == c[0] {
            lemma_components_before_transitive(a.drop_first(), b.drop_first(), c.drop_first());
        } else if a[0] != b[0] && b[0] != c[0] {
            lemma_component_before_transitive(a[0], b[0], c[0]);
            lemma_component_before_irreflexive(a[0]);
        }
    }
}

/// Of two different component sequences one comes before the other.
pub proof fn lemma_components_before_total(a: Seq<Component>, b: Seq<Component>)
    ensures
        a == b || components_before(a, b) || components_before(b, a),
    decreases a.len(),
{
    if a.len() > 0 && b.len() > 0 {
        if a[0] == b[0] {
            lemma_components_before_total(a.drop_first(), b.drop_first());
            if a.drop_first() == b.drop_first() {
                assert(a =~= seq![a[0]] + a.drop_first());
                assert(b =~= seq![b[0]] + b.drop_first());
            }
        } else {
            lemma_component_before_total(a[0], b[0]);
        }
    } else if a.len() == 0 && b.len() == 0 {
        assert(a =~= b);
    }
}

/// Whether text `a` comes strictly before text `b`.
pub fn text_precedes(a: &Vec<char>, b: &Vec<char>) -> (r: bool)
    ensures
        r == text_before(a@, b@),
{
    let mut i: usize = 0;
    proof {
        assert(a@.skip(0) =~= a@);
        assert(b@.skip(0) =~= b@);
    }
    while i < a.len() && i < b.len()
        invariant
            i <= a.len(),
            i <= b.len(),
            text_before(a@, b@) == text_before(a@.skip(i as int), b@.skip(i as int)),
        decreases a.len() - i,
    {
        let x = a[i];
        let y = b[i];
        proof {
            assert(a@.skip(i as int)[0] == x);
            assert(b@.skip(i as int)[0] == y);
            assert(a@.skip(i as int).drop_first() =~= a@.skip(i + 1));
            assert(b@.skip(i as int).drop_first() =~= b@.skip(i + 1));
        }
        if x != y {
            return x < y;
        }
        i = i + 1;
    }
    i < b.len()
}

/// Whether two parts stand for the same component.
pub fn same_part(a: &PathPart, b: &PathPart) -> (r: bool)
    ensures
        r == (a@ == b@),
{
    match (a, b) {
        (PathPart::Root, PathPart::Root) => true,
        (PathPart::Current, PathPart::Current) => true,
        (PathPart::Parent, PathPart::Parent) => true,
        (PathPart::Normal(x), PathPart::Normal(y)) => same_text(x, y),
        _ => false,
    }
}

/// The place of a part's kind in the order of components.
fn part_rank(a: &PathPart) -> (r: u8)
    ensures
        r == rank(a@),
{
    match a {
        PathPart::Root => 0,
        PathPart::Current => 1,
        PathPart::Parent => 2,
        PathPart::Normal(_) => 3,
    }
}

/// Whether part `a` comes strictly before part `b`.
pub fn part_precedes(a: &PathPart, b: &PathPart) -> (r: bool)
    ensures
        r == component_before(a@, b@),
{
    let ra = part_rank(a);
    let rb = part_rank(b);
    if ra != rb {
        return ra < rb;
    }
    match (a, b) {
        (PathPart::Normal(x), PathPart::Normal(y)) => text_precedes(x, y),
        _ => false,
    }
}

/// Whether the parts `a` come strictly before the parts `b`.
pub fn parts_precede(a: &Vec<PathPart>, b: &Vec<PathPart>) -> (r: bool)
    ensures
        r == components_before(parts_view(a@), parts_view(b@)),
{
    let ghost ca = parts_view(a@);
    let ghost cb = parts_view(b@);
    let mut i: usize = 0;
    proof {
        assert(ca.skip(0) =~= ca);
        assert(cb.skip(0) =~= cb);
    }
    while i < a.len() && i < b.len()
        invariant
            ca == parts_view(a@),
            cb == parts_view(b@),
            i <= a.len(),
            i <= b.len(),
            components_before(ca, cb) == components_before(ca.skip(i as int), cb.skip(i as int)),
        decreases a.len() - i,
    {
        proof {
            assert(ca.skip(i as int)[0] == a@[i as int]@);
            assert(cb.skip(i as int)[0] == b@[i as int]@);
            assert(ca.skip(i as int).drop_first() =~= ca.skip(i + 1));
            assert(cb.skip(i as int).drop_first() =~= cb.skip(i + 1));
        }
        if !same_part(&a[i], &b[i]) {
            return part_precedes(&a[i], &b[i]);
        }
        i = i + 1;
    }
    i < b.len()
}

/// Whether path `a` comes strictly before path `b`.
pub fn path_precedes(a: &str, b: &str) -> (r: bool)
    ensures
        r == path_before(a@, b@),
{
    let pa = split_components(a);
    let pb = split_components(b);
    parts_precede(&pa, &pb)
}


/// Whether the last character of `s` contributes no component: a separator
/// that is not the root, or a `.` behind a separator.
pub open spec fn is_filler_end(s: Seq<char>) -> bool {
    s.len() >= 2 && (is_separator(s.last()) || (s.last() == '.' && is_separator(s[s.len() - 2])))
}

/// The length of `s` without the characters at its end that contribute no
/// component.
pub open spec fn trimmed_len(s: Seq<char>) -> nat
    decreases s.len(),
{
    if is_filler_end(s) {
        trimmed_len(s.drop_last())
    } else {
        s.len()
    }
}

/// Where the last piece of `s` starts: behind the last separator, or at 0.
pub open spec fn name_start(s: Seq<char>) -> nat
    decreases s.len(),
{
    if s.len() == 0 || is_separator(s.last()) {
        s.len()
    } else {
        name_start(s.drop_last())
    }
}

/// The parent of a path: the path without its last component and without
/// what is left at the end that contributes no component. The empty path and
/// the root have none; the parent of a single relative name is empty.
pub open spec fn parent_text(s: Seq<char>) -> Option<Seq<char>> {
    let t = s.take(trimmed_len(s) as int);
    if t.len() == 0 || t =~= seq!['/'] {
        None
    } else {
        let head = t.take(name_start(t) as int);
        Some(head.take(trimmed_len(head) as int))
    }
}

/// `trimmed_len` and `name_start` lie within the text.
pub proof fn lemma_path_offsets(s: Seq<char>)
    ensures
        trimmed_len(s) <= s.len(),
        name_start(s) <= s.len(),
    decreases s.len(),
{
    if s.len() > 0 {
        lemma_path_offsets(s.drop_last());
    }
}

/// What is cut off by `trimmed_len` contributes no component.
pub proof fn lemma_trimmed_components(s: Seq<char>)
    ensures
        trimmed_len(s) <= s.len(),
        components(s.take(trimmed_len(s) as int)) == components(s),
    decreases s.len(),
{
    lemma_path_offsets(s);
    if is_filler_end(s) {
        let before = s.drop_last();
        lemma_trimmed_components(before);
        lemma_path_offsets(before);
        assert(s.take(trimmed_len(s) as int) =~= before.take(trimmed_len(before) as int));
        lemma_pieces_nonempty(before);
        if is_separator(s.last()) {
            assert(pieces(s).drop_last() =~= pieces(before));
        } else {
            let earlier = before.drop_last();
            lemma_pieces_nonempty(earlier);
            assert(before.last() == s[s.len() - 2]);
            assert(pieces(before) == pieces(earlier).push(Seq::<char>::empty()));
            assert(pieces(before).drop_last() =~= pieces(earlier));
            assert(pieces(s).last() =~= seq!['.']);
            assert(pieces(s).drop_last() =~= pieces(earlier));
        }
    } else {
        assert(s.take(s.len() as int) =~= s);
    }
}

/// What `trimmed_len` leaves does not end in a character that contributes
/// no component.
pub proof fn lemma_trimmed_is_trim(s: Seq<char>)
    ensures
        trimmed_len(s) <= s.len(),
        !is_filler_end(s.take(trimmed_len(s) as int)),
    decreases s.len(),
{
    lemma_path_offsets(s);
    if is_filler_end(s) {
        let before = s.drop_last();
        lemma_trimmed_is_trim(before);
        assert(s.take(trimmed_len(s) as int) =~= before.take(trimmed_len(before) as int));
    } else {
        assert(s.take(s.len() as int) =~= s);
    }
}

/// Behind `name_start` there is no separator, and before it the text is
/// empty or ends in one.
pub proof fn lemma_name_start(s: Seq<char>)
    ensures
        name_start(s) <= s.len(),
        forall|i: int| name_start(s) <= i < s.len() ==> !is_separator(#[trigger] s[i]),
        name_start(s) > 0 ==> is_separator(s[name_start(s) - 1]),
    decreases s.len(),
{
    if s.len() > 0 && !is_separator(s.last()) {
        let before = s.drop_last();
        lemma_name_start(before);
        assert forall|i: int| name_start(s) <= i < s.len() implies !is_separator(
            #[trigger] s[i],
        ) by {
            if i < before.len() {
                assert(s[i] == before[i]);
            }
        }
        if name_start(s) > 0 {
            assert(s[name_start(s) - 1] == before[name_start(before) - 1]);
        }
    }
}

/// A name behind a text that is empty or ends in a separator becomes the
/// last piece; the pieces before it stay.
pub proof fn lemma_pieces_with_name(head: Seq<char>, name: Seq<char>)
    requires
        head.len() == 0 || is_separator(head.last()),
        forall|i: int| 0 <= i < name.len() ==> !is_separator(#[trigger] name[i]),
    ensures
        pieces(head + name).len() == pieces(head).len(),
        pieces(head + name).drop_last() == pieces(head).drop_last(),
        pieces(head + name).last() == name,
        pieces(head).last() == Seq::<char>::empty(),
    decreases name.len(),
{
    lemma_pieces_nonempty(head);
    if name.len() == 0 {
        assert(head + name =~= head);
        if head.len() > 0 {
            lemma_pieces_nonempty(head.drop_last());
        }
        assert(pieces(head).last() =~= Seq::<char>::empty());
    } else {
        let shorter = name.drop_last();
        assert forall|i: int| 0 <= i < shorter.len() implies !is_separator(
            #[trigger] shorter[i],
        ) by {
            assert(shorter[i] == name[i]);
        }
        lemma_pieces_with_name(head, shorter);
        assert((head + name).drop_last() =~= head + shorter);
        assert((head + name).last() == name.last());
        let before = pieces(head + shorter);
        assert(pieces(head + name) == before.update(
            before.len() - 1,
            before.last().push(name.last()),
        ));
        assert(pieces(head + name).drop_last() =~= before.drop_last());
        assert(shorter.push(name.last()) =~= name);
    }
}

/// The parent of a path has the components of the path but the last. A path
/// has no parent exactly if it has no component or is the root alone.
pub proof fn lemma_parent_components(s: Seq<char>)
    ensures
        match parent_text(s) {
            Some(parent) => components(s).len() > 0 && components(parent) == components(
                s,
            ).drop_last() && !(components(s).last() is Root),
            None => components(s).len() == 0 || components(s) == seq![Component::Root],
        },
{
    lemma_trimmed_components(s);
    lemma_trimmed_is_trim(s);
    let t = s.take(trimmed_len(s) as int);
    if t.len() == 0 {
        assert(t =~= Seq::<char>::empty());
        let ps = pieces(t);
        assert(ps =~= seq![Seq::<char>::empty()]);
        assert(ps.drop_last() =~= Seq::<Seq<char>>::empty());
        assert(named(ps.drop_last()) =~= Seq::<Component>::empty());
        assert(named(ps) =~= Seq::<Component>::empty());
    } else if t =~= seq!['/'] {
        assert(t.len() == 1 && t[0] == '/');
        assert(t.drop_last() =~= Seq::<char>::empty());
        assert(pieces(t.drop_last()) =~= seq![Seq::<char>::empty()]);
        let ps = pieces(t);
        assert(ps =~= seq![Seq::<char>::empty(), Seq::<char>::empty()]);
        assert(ps.drop_last() =~= seq![Seq::<char>::empty()]);
        assert(ps.drop_last().drop_last() =~= Seq::<Seq<char>>::empty());
        assert(named(ps.drop_last().drop_last()) =~= Seq::<Component>::empty());
        assert(named(ps.drop_last()) =~= Seq::<Component>::empty());
        assert(named(ps) =~= Seq::<Component>::empty());
        assert(components(t) =~= seq![Component::Root]);
    } else {
        lemma_name_start(t);
        let start = name_start(t) as int;
        let head = t.take(start);
        let name = t.skip(start);
        assert(t =~= head + name);
        if is_separator(t.last()) {
            assert(t.len() >= 2 || t =~= seq!['/']);
        }
        assert(name.len() > 0);
        assert(head.len() == 0 || is_separator(head.last()));
        assert forall|i: int| 0 <= i < name.len() implies !is_separator(#[trigger] name[i]) by {
            assert(name[i] == t[start + i]);
        }
        lemma_pieces_with_name(head, name);
        lemma_pieces_nonempty(head);
        let ps = pieces(t);
        let hs = pieces(head);
        let index = ps.len() - 1;
        if name =~= seq!['.'] && head.len() > 0 {
            assert(t.last() == '.');
            assert(t[t.len() - 2] == head.last());
        }
        assert(piece_component(name, index) is Some);
        assert(piece_component(hs.last(), hs.len() - 1) is None);
        let last = piece_component(name, index)->Some_0;
        assert(named(ps) == named(hs.drop_last()).push(last));
        assert(named(hs) == named(hs.drop_last()));
        if head.len() > 0 {
            assert(head[0] == t[0]);
        } else {
            assert(t[0] == name[0]);
        }
        assert(has_root(head) == has_root(t));
        assert(components(t) =~= components(head).push(last));
        assert(components(t).drop_last() =~= components(head));
        lemma_trimmed_components(head);
    }
}

/// Computes `trimmed_len` of the first `len` characters.
fn trimmed_length(chars: &Vec<char>, len: usize) -> (n: usize)
    requires
        len <= chars.len(),
    ensures
        n == trimmed_len(chars@.take(len as int)),
        n <= len,
{
    let mut n: usize = len;
    while n >= 2 && (chars[n - 1] == '/' || (chars[n - 1] == '.' && chars[n - 2] == '/'))
        invariant
            n <= len <= chars.len(),
            trimmed_len(chars@.take(len as int)) == trimmed_len(chars@.take(n as int)),
        decreases n,
    {
        proof {
            assert(chars@.take(n as int).drop_last() =~= chars@.take(n - 1));
        }
        n = n - 1;
    }
    n
}

/// Computes `name_start` of the first `len` characters.
fn name_offset(chars: &Vec<char>, len: usize) -> (n: usize)
    requires
        len <= chars.len(),
    ensures
        n == name_start(chars@.take(len as int)),
        n <= len,
{
    let mut n: usize = len;
    while n > 0 && chars[n - 1] != '/'
        invariant
            n <= len <= chars.len(),
            name_start(chars@.take(len as int)) == name_start(chars@.take(n as int)),
        decreases n,
    {
        proof {
            assert(chars@.take(n as int).drop_last() =~= chars@.take(n - 1));
        }
        n = n - 1;
    }
    n
}

/// The parent of a path, if it has one.
pub fn parent_of(path: &str) -> (parent: Option<String>)
    ensures
        match parent_text(path@) {
            Some(text) => parent is Some && parent->Some_0@ == text,
            None => parent is None,
        },
{
    let chars = chars_of(path);
    proof {
        assert(chars@.take(chars.len() as int) =~= chars@);
    }
    let end = trimmed_length(&chars, chars.len());
    let ghost t = chars@.take(end as int);
    if end == 0 || (end == 1 && chars[0] == '/') {
        proof {
            if end == 1 {
                assert(t =~= seq!['/']);
            }
        }
        return None;
    }
    proof {
        if t =~= seq!['/'] {
            assert(t.len() == 1);
            assert(t[0] == '/');
        }
    }
    let start = name_offset(&chars, end);
    let keep = trimmed_length(&chars, start);
    proof {
        assert(t.take(start as int) =~= chars@.take(start as int));
        assert(chars@.take(start as int).take(keep as int) =~= chars@.subrange(0, keep as int));
    }
    Some(path.substring_char(0, keep).to_owned())
}

} // verus!
