//! The set of character names already taken, and the text file the server
//! keeps it in: one name per line.
use vstd::prelude::*;

use crate::paths::{server_file, server_path};
use crate::text::{chars_of, extend_chars, str_eq, string_from_chars};

verus! {

/// A line without its carriage return, if it ends with one.
pub open spec fn strip_cr(line: Seq<char>) -> Seq<char> {
    if line.len() > 0 && line.last() == '\r' {
        line.drop_last()
    } else {
        line
    }
}

/// The lines of `s`, when the line being read so far is `current`: a line
/// ends at `'\n'` (dropping a `'\r'` just before it), and a last line
/// without a terminator counts unless it is empty.
pub open spec fn lines_from(s: Seq<char>, current: Seq<char>) -> Seq<Seq<char>>
    decreases s.len(),
{
    if s.len() == 0 {
        if current.len() == 0 {
            seq![]
        } else {
            seq![current]
        }
    } else if s[0] == '\n' {
        seq![strip_cr(current)] + lines_from(s.drop_first(), seq![])
    } else {
        lines_from(s.drop_first(), current.push(s[0]))
    }
}

/// The lines of a text, as `str::lines` yields them.
pub open spec fn lines(s: Seq<char>) -> Seq<Seq<char>> {
    lines_from(s, seq![])
}

/// The names, one after another, separated by `'\n'`.
pub open spec fn join_lines(names: Seq<Seq<char>>) -> Seq<char>
    decreases names.len(),
{
    if names.len() == 0 {
        seq![]
    } else if names.len() == 1 {
        names[0]
    } else {
        names[0] + seq!['\n'] + join_lines(names.drop_first())
    }
}

/// A name that a line of the file can hold and give back.
pub open spec fn storable(name: Seq<char>) -> bool {
    &&& name.len() > 0
    &&& !name.contains('\n')
    &&& name.last() != '\r'
}

/// Reading characters that hold no line break only lengthens the line
/// being read.
pub proof fn lemma_lines_from_prefix(l: Seq<char>, rest: Seq<char>, current: Seq<char>)
    requires
        !l.contains('\n'),
    ensures
        lines_from(l + rest, current) == lines_from(rest, current + l),
    decreases l.len(),
{
    if l.len() == 0 {
        assert(l + rest =~= rest);
        assert(current + l =~= current);
    } else {
        assert((l + rest)[0] == l[0]);
        assert((l + rest).drop_first() =~= l.drop_first() + rest);
        assert(!l.drop_first().contains('\n')) by {
            if l.drop_first().contains('\n') {
                let k = choose|k: int| 0 <= k < l.drop_first().len() && l.drop_first()[k] == '\n';
                assert(l[k + 1] == '\n');
            }
        }
        assert(l[0] != '\n') by {
            if l[0] == '\n' {
                assert(l.contains('\n'));
            }
        }
        lemma_lines_from_prefix(l.drop_first(), rest, current.push(l[0]));
        assert(current.push(l[0]) + l.drop_first() =~= current + l);
    }
}

/// Names joined by line breaks read back as the same names, line by line.
pub proof fn lemma_lines_of_join(names: Seq<Seq<char>>)
    requires
        forall|i: int| 0 <= i < names.len() ==> storable(#[trigger] names[i]),
    ensures
        lines(join_lines(names)) == names,
    decreases names.len(),
{
    if names.len() == 0 {
        assert(lines(join_lines(names)) =~= names);
    } else if names.len() == 1 {
        assert(storable(names[0]));
        lemma_lines_from_prefix(names[0], seq![], seq![]);
        assert(names[0] + seq![] =~= names[0]);
        assert(seq![] + names[0] =~= names[0]);
        assert(lines(join_lines(names)) =~= names);
    } else {
        let tail = names.drop_first();
        assert(storable(names[0]));
        assert forall|i: int| 0 <= i < tail.len() implies storable(#[trigger] tail[i]) by {
            assert(tail[i] == names[i + 1]);
        }
        lemma_lines_of_join(tail);
        let rest = seq!['\n'] + join_lines(tail);
        assert(join_lines(names) =~= names[0] + rest);
        lemma_lines_from_prefix(names[0], rest, seq![]);
        assert(seq![] + names[0] =~= names[0]);
        assert(rest[0] == '\n');
        assert(rest.drop_first() =~= join_lines(tail));
        assert(strip_cr(names[0]) == names[0]);
        assert(lines(join_lines(names)) =~= names);
    }
}

/// Adding one more name to a joined list adds a line break and the name.
pub proof fn lemma_join_push(names: Seq<Seq<char>>, name: Seq<char>)
    ensures
        join_lines(names.push(name)) == (if names.len() == 0 {
            name
        } else {
            join_lines(names) + seq!['\n'] + name
        }),
    decreases names.len(),
{
    if names.len() == 0 {
        assert(names.push(name)[0] == name);
    } else if names.len() == 1 {
        assert(names.push(name).drop_first() =~= seq![name]);
        assert(join_lines(seq![name]) == name);
        assert(names.push(name)[0] == names[0]);
    } else {
        lemma_join_push(names.drop_first(), name);
        assert(names.push(name)[0] == names[0]);
        assert(names.push(name).drop_first() =~= names.drop_first().push(name));
        assert(join_lines(names.push(name)) =~= join_lines(names) + seq!['\n'] + name);
    }
}

/// A sequence with one more element holds one more element as a set.
pub proof fn lemma_push_to_set<A>(s: Seq<A>, x: A)
    ensures
        s.push(x).to_set() == s.to_set().insert(x),
{
    assert forall|n: A| s.push(x).to_set().contains(n) <==> s.to_set().insert(x).contains(n) by {
        if s.push(x).contains(n) && n != x {
            let k = choose|k: int| 0 <= k < s.push(x).len() && s.push(x)[k] == n;
            assert(s[k] == n);
        }
        if s.contains(n) {
            let k = choose|k: int| 0 <= k < s.len() && s[k] == n;
            assert(s.push(x)[k] == n);
        }
        if n == x {
            assert(s.push(x)[s.len() as int] == n);
        }
    }
    assert(s.push(x).to_set() =~= s.to_set().insert(x));
}

/// The names already given to characters.
pub struct NameCache {
    names: Vec<String>,
}

impl NameCache {
    /// The names in the order the cache keeps them.
    pub closed spec fn names_seq(self) -> Seq<Seq<char>> {
        self.names@.map_values(|s: String| s@)
    }

    /// The set of names taken.
    pub closed spec fn view(self) -> Set<Seq<char>> {
        self.names_seq().to_set()
    }

    /// No name is kept twice.
    pub closed spec fn wf(self) -> bool {
        self.names_seq().no_duplicates()
    }

    /// The order the cache keeps lists every taken name once.
    pub proof fn lemma_names_seq(self)
        requires
            self.wf(),
        ensures
            self.names_seq().to_set() == self.view(),
            self.names_seq().no_duplicates(),
    {
    }

    /// An empty cache.
    pub fn new() -> (c: NameCache)
        ensures
            c.wf(),
            c.view() == Set::<Seq<char>>::empty(),
    {
        let c = NameCache { names: Vec::new() };
        assert(c.names_seq() =~= Seq::<Seq<char>>::empty());
        c
    }

    /// Where the server keeps the cache inside the runtime folder `runtime`.
    pub fn path(runtime: &str) -> (p: String)
        ensures
            p@ == server_file(runtime@, "names.cache"@),
    {
        server_path(runtime, "names.cache")
    }

    /// Whether a character already has this name.
    pub fn contains(&self, name: &str) -> (r: bool)
        ensures
            r == self.view().contains(name@),
    {
        let mut i: usize = 0;
        while i < self.names.len()
            invariant
                i <= self.names@.len(),
                forall|j: int| 0 <= j < i ==> self.names@[j]@ != name@,
            decreases self.names@.len() - i,
        {
            if str_eq(self.names[i].as_str(), name) {
                assert(self.names_seq()[i as int] == name@);
                return true;
            }
            i = i + 1;
        }
        assert(!self.names_seq().contains(name@)) by {
            if self.names_seq().contains(name@) {
                let k = choose|k: int| 0 <= k < self.names_seq().len() && self.names_seq()[k] == name@;
                assert(self.names@[k]@ == name@);
            }
        }
        false
    }

    /// Records a name as taken.
    pub fn insert(&mut self, name: String)
        requires
            old(self).wf(),
        ensures
            final(self).wf(),
            final(self).view() == old(self).view().insert(name@),
    {
        if self.contains(name.as_str()) {
            assert(old(self).view().insert(name@) =~= old(self).view());
            return;
        }
        let ghost before = self.names_seq();
        self.names.push(name);
        proof {
            assert(self.names_seq() =~= before.push(name@));
            assert forall|i: int, j: int| 0 <= i < j < self.names_seq().len() implies self.names_seq()[i] != self.names_seq()[j] by {
                if j == before.len() {
                    assert(before.contains(before[i]));
                }
            }
            assert(self.names_seq().to_set() =~= before.to_set().insert(name@)) by {
                assert forall|n: Seq<char>| self.names_seq().to_set().contains(n) <==> before.to_set().insert(name@).contains(n) by {
                    if n != name@ && self.names_seq().contains(n) {
                        let k = choose|k: int| 0 <= k < self.names_seq().len() && self.names_seq()[k] == n;
                        assert(before[k] == n);
                    }
                    if before.contains(n) {
                        let k = choose|k: int| 0 <= k < before.len() && before[k] == n;
                        assert(self.names_seq()[k] == n);
                    }
                    if n == name@ {
                        assert(self.names_seq()[before.len() as int] == n);
                    }
                }
            }
        }
    }
    /// The cache as stored in its file: the names, one per line.
    pub fn to_contents(&self) -> (r: String)
        ensures
            r@ == join_lines(self.names_seq()),
    {
        let mut v: Vec<char> = Vec::new();
        let mut i: usize = 0;
        while i < self.names.len()
            invariant
                i <= self.names@.len(),
                v@ == join_lines(self.names_seq().take(i as int)),
            decreases self.names@.len() - i,
        {
            let ghost before = v@;
            if i > 0 {
                v.push('\n');
            }
            extend_chars(&mut v, self.names[i].as_str());
            proof {
                let taken = self.names_seq().take(i as int);
                lemma_join_push(taken, self.names_seq()[i as int]);
                assert(self.names_seq().take(i as int + 1) =~= taken.push(self.names_seq()[i as int]));
                if i > 0 {
                    assert(v@ =~= before + seq!['\n'] + self.names_seq()[i as int]);
                } else {
                    assert(v@ =~= self.names_seq()[i as int]);
                }
            }
            i = i + 1;
        }
        assert(self.names_seq().take(self.names@.len() as int) =~= self.names_seq());
        string_from_chars(v.as_slice())
    }

    /// The cache read from the contents of its file: every line is a name.
    pub fn from_contents(contents: &str) -> (c: NameCache)
        ensures
            c.wf(),
            c.view() == lines(contents@).to_set(),
    {
        let chars = chars_of(contents);
        let mut cache = NameCache::new();
        let mut current: Vec<char> = Vec::new();
        let ghost mut emitted: Seq<Seq<char>> = seq![];
        let mut i: usize = 0;
        assert(contents@.skip(0) =~= contents@);
        while i < chars.len()
            invariant
                chars@ == contents@,
                i <= chars@.len(),
                cache.wf(),
                cache.view() == emitted.to_set(),
                lines(contents@) == emitted + lines_from(contents@.skip(i as int), current@),
            decreases chars@.len() - i,
        {
            let ghost rest = contents@.skip(i as int);
            let ghost cur_old = current@;
            assert(rest[0] == chars@[i as int]);
            assert(rest.drop_first() =~= contents@.skip(i as int + 1));
            if chars[i] == '\n' {
                let ghost line = strip_cr(current@);
                if current.len() > 0 && current[current.len() - 1] == '\r' {
                    current.pop();
                    assert(current@ =~= line);
                }
                let name = string_from_chars(current.as_slice());
                cache.insert(name);
                proof {
                    lemma_push_to_set(emitted, line);
                    assert(lines_from(rest, cur_old) == seq![line] + lines_from(rest.drop_first(), seq![]));
                    assert(emitted + lines_from(rest, cur_old) =~= emitted.push(line) + lines_from(rest.drop_first(), seq![]));
                    emitted = emitted.push(line);
                }
                current = Vec::new();
                assert(current@ =~= seq![]);
            } else {
                current.push(chars[i]);
                assert(lines_from(rest, cur_old) == lines_from(rest.drop_first(), cur_old.push(rest[0])));
            }
            i = i + 1;
        }
        assert(contents@.skip(chars@.len() as int) =~= seq![]);
        if current.len() > 0 {
            let ghost line = current@;
            let name = string_from_chars(current.as_slice());
            cache.insert(name);
            proof {
                lemma_push_to_set(emitted, line);
                emitted = emitted.push(line);
                assert(lines(contents@) =~= emitted);
            }
        } else {
            assert(lines(contents@) =~= emitted);
        }
        cache
    }
}

/// Saving a cache and reading the file back gives the same set of names,
/// provided every name is one a line can hold: not empty, without a line
/// break, and not ending in a carriage return.
pub proof fn law_save_then_load(cache: NameCache)
    requires
        cache.wf(),
        forall|n: Seq<char>| cache.view().contains(n) ==> storable(n),
    ensures
        lines(join_lines(cache.names_seq())).to_set() == cache.view(),
{
    cache.lemma_names_seq();
    assert forall|i: int| 0 <= i < cache.names_seq().len() implies storable(#[trigger] cache.names_seq()[i]) by {
        assert(cache.view().contains(cache.names_seq()[i]));
    }
    lemma_lines_of_join(cache.names_seq());
}

/// A name just recorded is taken, and recording keeps every name taken
/// before.
pub proof fn law_insert_then_contains(before: NameCache, after: NameCache, name: Seq<char>)
    requires
        after.view() == before.view().insert(name),
    ensures
        after.view().contains(name),
        forall|n: Seq<char>| before.view().contains(n) ==> after.view().contains(n),
{
}

} // verus!
