//! Relative paths as sequences of plain components.
//!
//! A path is modelled by the sequence of its components. A component is
//! *plain* when it names one ordinary directory entry: it is not empty, it is
//! neither `.` nor `..`, and it holds no separator and no NUL. A path made of
//! plain components only, joined below a directory, stays inside it.

use crate::text::{chars_of, string_of};
use vstd::prelude::*;

verus! {

/// Whether `component` names one ordinary entry of a directory.
pub open spec fn is_plain_component(component: Seq<char>) -> bool {
    &&& component.len() > 0
    &&& component != seq!['.']
    &&& component != seq!['.', '.']
    &&& forall|i: int| 0 <= i < component.len() ==> component[i] != '/' && component[i] != '\0'
}

/// Whether every component of `path` is plain.
pub open spec fn all_plain(path: Seq<Seq<char>>) -> bool {
    forall|i: int| 0 <= i < path.len() ==> is_plain_component(#[trigger] path[i])
}

/// The pieces of `text` between its separators, empty pieces included. The
/// text is read from the left: a separator closes the current piece and
/// opens a new one, any other character extends the current piece.
pub open spec fn split_components(text: Seq<char>) -> Seq<Seq<char>>
    decreases text.len(),
{
    if text.len() == 0 {
        seq![Seq::<char>::empty()]
    } else {
        let before = split_components(text.drop_last());
        if text.last() == '/' {
            before.push(Seq::<char>::empty())
        } else {
            before.drop_last().push(before.last().push(text.last()))
        }
    }
}

/// The components of `path` written one after the other with a separator
/// between neighbours.
pub open spec fn join_components(path: Seq<Seq<char>>) -> Seq<char>
    decreases path.len(),
{
    if path.len() == 0 {
        Seq::<char>::empty()
    } else if path.len() == 1 {
        path[0]
    } else {
        join_components(path.drop_last()).push('/') + path.last()
    }
}

/// The path that `text` spells: no components for the empty text, else the
/// pieces between separators, provided each of them is plain.
pub open spec fn spec_parse(text: Seq<char>) -> Option<Seq<Seq<char>>> {
    if text.len() == 0 {
        Some(Seq::<Seq<char>>::empty())
    } else if all_plain(split_components(text)) {
        Some(split_components(text))
    } else {
        None
    }
}

/// A text always splits into at least one piece.
pub proof fn lemma_split_nonempty(text: Seq<char>)
    ensures
        split_components(text).len() >= 1,
    decreases text.len(),
{
    if text.len() > 0 {
        lemma_split_nonempty(text.drop_last());
    }
}

/// Splitting the text of a piece without separators gives that piece alone.
pub proof fn lemma_split_of_piece(piece: Seq<char>)
    requires
        forall|j: int| 0 <= j < piece.len() ==> piece[j] != '/',
    ensures
        split_components(piece) == seq![piece],
    decreases piece.len(),
{
    if piece.len() > 0 {
        lemma_split_of_piece(piece.drop_last());
        assert(seq![piece.drop_last()].drop_last().push(piece.drop_last().push(piece.last()))
            == seq![piece]) by {
            assert(piece.drop_last().push(piece.last()) == piece);
        }
    } else {
        assert(piece == Seq::<char>::empty());
    }
}

/// Splitting `left`, a separator and a piece without separators gives the
/// pieces of `left` followed by that piece.
pub proof fn lemma_split_appended_piece(left: Seq<char>, piece: Seq<char>)
    requires
        forall|j: int| 0 <= j < piece.len() ==> piece[j] != '/',
    ensures
        split_components(left.push('/') + piece) == split_components(left).push(piece),
    decreases piece.len(),
{
    let text = left.push('/') + piece;
    if piece.len() == 0 {
        assert(text == left.push('/'));
        assert(text.drop_last() == left);
        assert(piece == Seq::<char>::empty());
    } else {
        let shorter = piece.drop_last();
        lemma_split_appended_piece(left, shorter);
        assert(text.drop_last() == left.push('/') + shorter);
        assert(text.last() == piece.last());
        let before = split_components(left).push(shorter);
        assert(before.drop_last() == split_components(left));
        assert(shorter.push(piece.last()) == piece);
    }
}

/// Joining plain components and splitting the text again gives the
/// components back.
pub proof fn lemma_split_of_join(path: Seq<Seq<char>>)
    requires
        path.len() > 0,
        all_plain(path),
    ensures
        split_components(join_components(path)) == path,
        join_components(path).len() > 0,
    decreases path.len(),
{
    if path.len() == 1 {
        lemma_split_of_piece(path[0]);
        assert(seq![path[0]] == path);
    } else {
        let front = path.drop_last();
        assert(all_plain(front)) by {
            assert forall|i: int| 0 <= i < front.len() implies is_plain_component(
                #[trigger] front[i],
            ) by {
                assert(front[i] == path[i]);
            }
        }
        lemma_split_of_join(front);
        lemma_split_appended_piece(join_components(front), path.last());
        assert(front.push(path.last()) == path);
    }
}

/// Splitting a text and joining the pieces gives the text back.
pub proof fn lemma_join_of_split(text: Seq<char>)
    ensures
        join_components(split_components(text)) == text,
    decreases text.len(),
{
    if text.len() == 0 {
        assert(join_components(seq![Seq::<char>::empty()]) == Seq::<char>::empty());
    } else {
        let shorter = text.drop_last();
        let before = split_components(shorter);
        lemma_split_nonempty(shorter);
        lemma_join_of_split(shorter);
        if text.last() == '/' {
            let pieces = before.push(Seq::<char>::empty());
            assert(pieces.drop_last() == before);
            assert(join_components(pieces) == join_components(before).push('/')
                + Seq::<char>::empty());
            assert(shorter.push('/') + Seq::<char>::empty() == text);
        } else {
            let grown = before.last().push(text.last());
            let pieces = before.drop_last().push(grown);
            assert(pieces.drop_last() == before.drop_last());
            if before.len() == 1 {
                assert(before[0] == shorter);
                assert(pieces[0] == grown);
                assert(shorter.push(text.last()) == text);
            } else {
                let stem = join_components(before.drop_last()).push('/');
                assert(join_components(before) == stem + before.last());
                assert(join_components(pieces) == stem + grown);
                assert(stem + grown == (stem + before.last()).push(text.last()));
                assert(shorter.push(text.last()) == text);
            }
        }
    }
}

/// A path spells a text from which it can be read again: parsing the joined
/// components of a path of plain components returns that path.
pub proof fn lemma_parse_of_join(path: Seq<Seq<char>>)
    requires
        all_plain(path),
    ensures
        spec_parse(join_components(path)) == Some(path),
{
    if path.len() == 0 {
        assert(path == Seq::<Seq<char>>::empty());
    } else {
        lemma_split_of_join(path);
    }
}

/// Whatever parses is made of plain components, and spells the text it was
/// read from.
pub proof fn lemma_parse_sound(text: Seq<char>)
    ensures
        spec_parse(text) matches Some(path) ==> all_plain(path) && join_components(path) == text,
{
    if text.len() > 0 {
        lemma_join_of_split(text);
    }
}

/// The path of the directory that holds `path`.
pub open spec fn parent_of(path: Seq<Seq<char>>) -> Seq<Seq<char>> {
    if path.len() == 0 {
        path
    } else {
        path.drop_last()
    }
}

/// A relative path that stays below the directory it is joined to.
#[derive(Debug)]
pub struct RelPath {
    components: Vec<String>,
}

impl View for RelPath {
    type V = Seq<Seq<char>>;

    closed spec fn view(&self) -> Seq<Seq<char>> {
        self.components.deep_view()
    }
}

impl DeepView for RelPath {
    type V = Seq<Seq<char>>;

    open spec fn deep_view(&self) -> Seq<Seq<char>> {
        self@
    }
}

impl Clone for RelPath {
    fn clone(&self) -> (copy: RelPath)
        ensures
            copy@ == self@,
    {
        let copy = self.prefix(self.len());
        proof {
            assert(self@.take(self@.len() as int) == self@);
        }
        copy
    }
}

/// Whether the characters `cs` make a plain component.
fn is_plain(cs: &Vec<char>) -> (b: bool)
    ensures
        b == is_plain_component(cs@),
{
    let n = cs.len();
    if n == 0 {
        return false;
    }
    if n == 1 && cs[0] == '.' {
        assert(cs@ =~= seq!['.']);
        return false;
    }
    if n == 2 && cs[0] == '.' && cs[1] == '.' {
        assert(cs@ =~= seq!['.', '.']);
        return false;
    }
    assert(cs@ != seq!['.']) by {
        if cs@ == seq!['.'] {
            assert(seq!['.'].len() == 1);
            assert(seq!['.'][0] == '.');
        }
    }
    assert(cs@ != seq!['.', '.']) by {
        if cs@ == seq!['.', '.'] {
            assert(seq!['.', '.'].len() == 2);
            assert(seq!['.', '.'][0] == '.');
            assert(seq!['.', '.'][1] == '.');
        }
    }
    let mut i: usize = 0;
    while i < n
        invariant
            n == cs.len(),
            i <= n,
            forall|j: int| 0 <= j < i ==> cs@[j] != '/' && cs@[j] != '\0',
        decreases n - i,
    {
        if cs[i] == '/' || cs[i] == '\0' {
            return false;
        }
        i += 1;
    }
    true
}

impl RelPath {
    /// Every component of a path is plain.
    #[verifier::type_invariant]
    pub open spec fn well_formed(&self) -> bool {
        all_plain(self@)
    }

    /// The path without components: the directory itself.
    pub fn empty() -> (p: RelPath)
        ensures
            p@ == Seq::<Seq<char>>::empty(),
    {
        let components: Vec<String> = Vec::new();
        assert(components.deep_view() == Seq::<Seq<char>>::empty());
        RelPath { components }
    }

    /// Reads a path from its text. The empty text is the empty path.
    /// Otherwise the text is cut at every separator, and the result is a path
    /// exactly when every piece is plain: a leading, trailing or doubled
    /// separator, a `.` or `..` piece, or a NUL makes the text no path.
    pub fn parse(text: &str) -> (r: Option<RelPath>)
        ensures
            match r {
                Some(p) => spec_parse(text@) == Some(p@),
                None => spec_parse(text@) is None,
            },
    {
        let chars = chars_of(text);
        let n = chars.len();
        if n == 0 {
            return Some(RelPath::empty());
        }
        let mut components: Vec<String> = Vec::new();
        let mut current: Vec<char> = Vec::new();
        let mut plain_so_far = true;
        let mut i: usize = 0;
        assert(chars@.take(0) == Seq::<char>::empty());
        assert(components.deep_view().push(current@) == seq![Seq::<char>::empty()]);
        while i < n
            invariant
                n == chars.len(),
                i <= n,
                components.deep_view().push(current@) == split_components(chars@.take(i as int)),
                plain_so_far == all_plain(components.deep_view()),
            decreases n - i,
        {
            let ghost closed = components.deep_view();
            let ghost prefix = chars@.take(i as int);
            let c = chars[i];
            proof {
                let next = chars@.take(i + 1);
                assert(next.drop_last() == prefix);
                assert(next.last() == c);
                assert(closed.push(current@).drop_last() == closed);
                assert(closed.push(current@).last() == current@);
            }
            if c == '/' {
                if !is_plain(&current) {
                    plain_so_far = false;
                }
                let piece = string_of(&current);
                components.push(piece);
                current = Vec::new();
                proof {
                    assert(components.deep_view() == closed.push(piece@));
                    assert(current@ == Seq::<char>::empty());
                    lemma_all_plain_push(closed, piece@);
                }
            } else {
                current.push(c);
                proof {
                    assert(components.deep_view() == closed);
                }
            }
            i += 1;
        }
        assert(chars@.take(n as int) == chars@);
        let ghost closed = components.deep_view();
        let last_plain = is_plain(&current);
        let piece = string_of(&current);
        components.push(piece);
        proof {
            assert(components.deep_view() == closed.push(piece@));
            lemma_all_plain_push(closed, piece@);
        }
        if plain_so_far && last_plain {
            Some(RelPath { components })
        } else {
            None
        }
    }

    /// The number of components.
    pub fn len(&self) -> (n: usize)
        ensures
            n == self@.len(),
    {
        self.components.len()
    }

    /// Whether the path has no components.
    pub fn is_empty(&self) -> (b: bool)
        ensures
            b == (self@.len() == 0),
    {
        self.components.len() == 0
    }

    /// The components, first to last.
    pub fn components(&self) -> (cs: &Vec<String>)
        ensures
            cs.deep_view() == self@,
            all_plain(self@),
    {
        proof {
            use_type_invariant(self);
        }
        &self.components
    }

    /// The first component, if there is one.
    pub fn first(&self) -> (c: Option<&String>)
        ensures
            match c {
                Some(s) => self@.len() > 0 && s@ == self@[0] && is_plain_component(s@),
                None => self@.len() == 0,
            },
    {
        proof {
            use_type_invariant(self);
        }
        if self.components.len() == 0 {
            None
        } else {
            Some(&self.components[0])
        }
    }

    /// The path without its first component. The empty path stays empty.
    pub fn strip_first(self) -> (rest: RelPath)
        ensures
            rest@ == if self@.len() > 0 {
                self@.drop_first()
            } else {
                self@
            },
    {
        proof {
            use_type_invariant(&self);
        }
        if self.components.len() == 0 {
            return self;
        }
        let ghost before = self.components.deep_view();
        let mut components = self.components;
        components.remove(0);
        proof {
            assert(components.deep_view() == before.drop_first());
            assert forall|i: int| 0 <= i < before.drop_first().len() implies is_plain_component(
                #[trigger] before.drop_first()[i],
            ) by {
                assert(before.drop_first()[i] == before[i + 1]);
            }
        }
        RelPath { components }
    }

    /// A copy of the first `len` components of the path, or of the whole
    /// path where it has fewer.
    pub fn prefix(&self, len: usize) -> (front: RelPath)
        ensures
            front@ == if len <= self@.len() {
                self@.take(len as int)
            } else {
                self@
            },
    {
        proof {
            use_type_invariant(self);
        }
        let n = if len <= self.components.len() {
            len
        } else {
            self.components.len()
        };
        let mut components: Vec<String> = Vec::new();
        let mut i: usize = 0;
        while i < n
            invariant
                n <= self.components.len(),
                i <= n,
                components.deep_view() == self@.take(i as int),
            decreases n - i,
        {
            let ghost before = components.deep_view();
            components.push(self.components[i].clone());
            proof {
                assert(components.deep_view() == before.push(self@[i as int]));
            }
            i += 1;
        }
        proof {
            assert(self@.take(self@.len() as int) == self@);
            assert forall|k: int| 0 <= k < self@.take(n as int).len() implies is_plain_component(
                #[trigger] self@.take(n as int)[k],
            ) by {
                assert(self@.take(n as int)[k] == self@[k]);
            }
        }
        RelPath { components }
    }

    /// The path of the directory that holds this one: the path without its
    /// last component. The empty path is its own parent.
    pub fn parent(&self) -> (dir: RelPath)
        ensures
            dir@ == parent_of(self@),
    {
        let n = self.components.len();
        if n == 0 {
            RelPath::empty()
        } else {
            let dir = self.prefix(n - 1);
            proof {
                assert(self@.take(n - 1) == self@.drop_last());
            }
            dir
        }
    }

    /// The text of the path: its components with a separator between
    /// neighbours.
    pub fn to_text(&self) -> (text: String)
        ensures
            text@ == join_components(self@),
    {
        let mut text = String::new();
        let n = self.components.len();
        let mut i: usize = 0;
        assert(self@.take(0) == Seq::<Seq<char>>::empty());
        while i < n
            invariant
                n == self.components.len(),
                i <= n,
                text@ == join_components(self@.take(i as int)),
            decreases n - i,
        {
            let ghost done = self@.take(i as int);
            let ghost next = self@.take(i + 1);
            proof {
                assert(next.drop_last() == done);
                assert(next.last() == self.components[i as int]@);
            }
            if i > 0 {
                text.push('/');
            }
            let piece = chars_of(self.components[i].as_str());
            let mut j: usize = 0;
            let ghost stem = text@;
            while j < piece.len()
                invariant
                    j <= piece.len(),
                    text@ == stem + piece@.take(j as int),
                decreases piece.len() - j,
            {
                text.push(piece[j]);
                proof {
                    assert(piece@.take(j + 1) == piece@.take(j as int).push(piece@[j as int]));
                }
                j += 1;
            }
            proof {
                assert(piece@.take(piece.len() as int) == piece@);
                if i == 0 {
                    assert(stem + piece@ == piece@);
                    assert(next.len() == 1);
                }
            }
            i += 1;
        }
        assert(self@.take(n as int) == self@);
        text
    }
}

/// The components of a longer path are plain exactly when those of the
/// shorter path and the added one are.
pub proof fn lemma_all_plain_push(path: Seq<Seq<char>>, component: Seq<char>)
    ensures
        all_plain(path.push(component)) == (all_plain(path) && is_plain_component(component)),
{
    let longer = path.push(component);
    if all_plain(longer) {
        assert(is_plain_component(longer[path.len() as int]));
        assert forall|i: int| 0 <= i < path.len() implies is_plain_component(#[trigger] path[i]) by {
            assert(path[i] == longer[i]);
        }
    }
    if all_plain(path) && is_plain_component(component) {
        assert forall|i: int| 0 <= i < longer.len() implies is_plain_component(
            #[trigger] longer[i],
        ) by {
            if i < path.len() {
                assert(longer[i] == path[i]);
            }
        }
    }
}

} // verus!
