//! The shell's variables: names bound to text, each name at most once, in
//! the order of their first binding.
use vstd::prelude::*;
use crate::colors::{paint_green, painted, green_code};
use crate::text::{eq_lit, chars_of, string_of, extend_chars};

verus! {

/// The value bound to `key`, if any.
pub open spec fn lookup_var(e: Seq<(Seq<char>, Seq<char>)>, key: Seq<char>) -> Option<Seq<char>>
    decreases e.len(),
{
    if e.len() == 0 {
        None
    } else if e.last().0 == key {
        Some(e.last().1)
    } else {
        lookup_var(e.drop_last(), key)
    }
}

pub open spec fn distinct_keys(e: Seq<(Seq<char>, Seq<char>)>) -> bool {
    forall|i: int, j: int| 0 <= i < j < e.len() ==> e[i].0 != e[j].0
}

pub open spec fn var_line_ok(line: Seq<char>, entry: (Seq<char>, Seq<char>)) -> bool {
    exists|name: Seq<char>|
        painted(name, entry.0, green_code()) && line == name + seq![' ', '=', ' '] + entry.1 + seq![
            '\n',
        ]
}

/// `out` lists the bindings, one line `name = value` each, in order, the
/// name in green where colors are on.
pub open spec fn listing_ok(out: Seq<char>, e: Seq<(Seq<char>, Seq<char>)>) -> bool
    decreases e.len(),
{
    if e.len() == 0 {
        out.len() == 0
    } else {
        exists|k: int|
            0 <= k <= out.len() && listing_ok(out.take(k), e.drop_last()) && var_line_ok(
                #[trigger] out.skip(k),
                e.last(),
            )
    }
}

pub open spec fn has_key(e: Seq<(Seq<char>, Seq<char>)>, k: Seq<char>) -> bool {
    exists|i: int| 0 <= i < e.len() && #[trigger] e[i].0 == k
}

/// The position of the binding of `k` (where there is one).
pub open spec fn key_index(e: Seq<(Seq<char>, Seq<char>)>, k: Seq<char>) -> int {
    choose|i: int| 0 <= i < e.len() && #[trigger] e[i].0 == k
}

/// The bindings after binding `k` to `v`: an existing binding of `k` is
/// replaced in place, a new one goes last.
pub open spec fn insert_var(e: Seq<(Seq<char>, Seq<char>)>, k: Seq<char>, v: Seq<char>) -> Seq<
    (Seq<char>, Seq<char>),
> {
    if has_key(e, k) {
        e.update(key_index(e, k), (k, v))
    } else {
        e.push((k, v))
    }
}

/// The bindings after removing the binding of `k`.
pub open spec fn remove_var(e: Seq<(Seq<char>, Seq<char>)>, k: Seq<char>) -> Seq<
    (Seq<char>, Seq<char>),
> {
    if has_key(e, k) {
        e.remove(key_index(e, k))
    } else {
        e
    }
}

/// The value of a binding is that of the one binding of its name.
pub proof fn lemma_lookup_var(e: Seq<(Seq<char>, Seq<char>)>, k: Seq<char>)
    requires
        distinct_keys(e),
    ensures
        has_key(e, k) ==> lookup_var(e, k) == Some(e[key_index(e, k)].1),
        !has_key(e, k) ==> lookup_var(e, k) is None,
    decreases e.len(),
{
    if e.len() > 0 {
        let d = e.drop_last();
        assert(distinct_keys(d));
        lemma_lookup_var(d, k);
        if e.last().0 == k {
            let i = key_index(e, k);
            assert(e[e.len() - 1].0 == k);
            if i != e.len() - 1 {
                assert(e[i].0 != e[e.len() - 1].0);
            }
        } else if has_key(e, k) {
            let i = key_index(e, k);
            assert(i != e.len() - 1);
            assert(d[i].0 == k);
            assert(has_key(d, k));
            let j = key_index(d, k);
            assert(e[j].0 == k);
            if i != j {
                if i < j {
                    assert(e[i].0 != e[j].0);
                } else {
                    assert(e[j].0 != e[i].0);
                }
            }
        } else {
            if has_key(d, k) {
                let j = key_index(d, k);
                assert(e[j].0 == k);
            }
        }
    }
}

/// A variable name: one or more lowercase English letters.
pub open spec fn valid_name_spec(n: Seq<char>) -> bool {
    n.len() > 0 && forall|i: int| 0 <= i < n.len() ==> 'a' <= #[trigger] n[i] <= 'z'
}

/// Whether `n` is a variable name: one or more lowercase English letters.
pub fn valid_name(n: &String) -> (b: bool)
    ensures
        b == valid_name_spec(n@),
{
    let c = chars_of(n.as_str());
    if c.len() == 0 {
        return false;
    }
    let mut i: usize = 0;
    while i < c.len()
        invariant
            i <= c@.len(),
            c@ == n@,
            forall|m: int| 0 <= m < i ==> 'a' <= #[trigger] c@[m] <= 'z',
        decreases c@.len() - i,
    {
        if c[i] < 'a' || c[i] > 'z' {
            return false;
        }
        i += 1;
    }
    true
}

pub struct Variables {
    entries: Vec<(String, String)>,
}

impl Variables {
    /// The bindings, in order.
    pub closed spec fn entries(&self) -> Seq<(Seq<char>, Seq<char>)> {
        self.entries@.map_values(|p: (String, String)| (p.0@, p.1@))
    }

    #[verifier::type_invariant]
    spec fn wf(&self) -> bool {
        distinct_keys(self.entries())
    }

    pub fn new() -> (r: Variables)
        ensures
            r.entries() == Seq::<(Seq<char>, Seq<char>)>::empty(),
    {
        let r = Variables { entries: Vec::new() };
        assert(r.entries() =~= Seq::<(Seq<char>, Seq<char>)>::empty());
        r
    }

    /// The number of bindings.
    pub fn len(&self) -> (n: usize)
        ensures
            n == self.entries().len(),
    {
        self.entries.len()
    }

    /// The value bound to `key`.
    pub fn get(&self, key: &str) -> (r: Option<String>)
        ensures
            match r {
                Some(v) => lookup_var(self.entries(), key@) == Some(v@),
                None => lookup_var(self.entries(), key@) is None,
            },
    {
        proof {
            use_type_invariant(self);
            lemma_lookup_var(self.entries(), key@);
        }
        match self.find(key) {
            Some(i) => {
                proof {
                    let e = self.entries();
                    let j = key_index(e, key@);
                    if i != j {
                        if i < j {
                            assert(e[i as int].0 != e[j].0);
                        } else {
                            assert(e[j].0 != e[i as int].0);
                        }
                    }
                }
                Some(self.entries[i].1.clone())
            },
            None => None,
        }
    }

    /// Binds `key` to `value`.
    pub fn set(&mut self, key: String, value: String)
        ensures
            final(self).entries() == insert_var(old(self).entries(), key@, value@),
    {
        proof {
            use_type_invariant(&*self);
        }
        let ghost e = self.entries();
        match self.find(key.as_str()) {
            Some(i) => {
                proof {
                    let j = key_index(e, key@);
                    if i != j {
                        if i < j {
                            assert(e[i as int].0 != e[j].0);
                        } else {
                            assert(e[j].0 != e[i as int].0);
                        }
                    }
                }
                let mut entries: Vec<(String, String)> = Vec::new();
                std::mem::swap(&mut entries, &mut self.entries);
                entries.set(i, (key, value));
                assert(entries@.map_values(|p: (String, String)| (p.0@, p.1@)) =~= insert_var(e, key@, value@));
                self.entries = entries;
            },
            None => {
                let mut entries: Vec<(String, String)> = Vec::new();
                std::mem::swap(&mut entries, &mut self.entries);
                entries.push((key, value));
                assert(entries@.map_values(|p: (String, String)| (p.0@, p.1@)) =~= insert_var(e, key@, value@));
                self.entries = entries;
            },
        }
    }

    /// Removes the binding of `key`; whether there was one.
    pub fn unset(&mut self, key: &str) -> (r: bool)
        ensures
            r == has_key(old(self).entries(), key@),
            final(self).entries() == remove_var(old(self).entries(), key@),
    {
        proof {
            use_type_invariant(&*self);
        }
        let ghost e = self.entries();
        match self.find(key) {
            Some(i) => {
                proof {
                    let j = key_index(e, key@);
                    if i != j {
                        if i < j {
                            assert(e[i as int].0 != e[j].0);
                        } else {
                            assert(e[j].0 != e[i as int].0);
                        }
                    }
                }
                let mut entries: Vec<(String, String)> = Vec::new();
                std::mem::swap(&mut entries, &mut self.entries);
                entries.remove(i);
                assert(entries@.map_values(|p: (String, String)| (p.0@, p.1@)) =~= remove_var(e, key@));
                self.entries = entries;
                true
            },
            None => false,
        }
    }

    /// Every binding, one line `name = value` each, in order.
    pub fn listing(&self) -> (r: String)
        ensures
            listing_ok(r@, self.entries()),
    {
        let mut out: Vec<char> = Vec::new();
        let mut i: usize = 0;
        assert(self.entries().take(0) =~= Seq::<(Seq<char>, Seq<char>)>::empty());
        while i < self.entries.len()
            invariant
                i <= self.entries@.len(),
                listing_ok(out@, self.entries().take(i as int)),
            decreases self.entries@.len() - i,
        {
            let ghost old_out = out@;
            let name = paint_green(self.entries[i].0.as_str());
            let name_chars = chars_of(name.as_str());
            extend_chars(&mut out, &name_chars);
            out.push(' ');
            out.push('=');
            out.push(' ');
            let value = chars_of(self.entries[i].1.as_str());
            extend_chars(&mut out, &value);
            out.push('\n');
            let ghost e = self.entries();
            let ghost line = out@.skip(old_out.len() as int);
            assert(line =~= name@ + seq![' ', '=', ' '] + e[i as int].1 + seq!['\n']);
            assert(e[i as int] == (self.entries@[i as int].0@, self.entries@[i as int].1@));
            assert(painted(name@, e[i as int].0, green_code()));
            assert(var_line_ok(line, e[i as int]));
            assert(out@.take(old_out.len() as int) =~= old_out);
            assert(e.take(i + 1).drop_last() =~= e.take(i as int));
            assert(e.take(i + 1).last() == e[i as int]);
            i += 1;
        }
        assert(self.entries().take(self.entries@.len() as int) =~= self.entries());
        string_of(&out)
    }

    fn find(&self, key: &str) -> (r: Option<usize>)
        ensures
            match r {
                Some(i) => i < self.entries().len() && self.entries()[i as int].0 == key@,
                None => forall|i: int| 0 <= i < self.entries().len() ==> self.entries()[i].0 != key@,
            },
    {
        let mut i: usize = 0;
        while i < self.entries.len()
            invariant
                i <= self.entries@.len(),
                forall|m: int| 0 <= m < i ==> self.entries()[m].0 != key@,
            decreases self.entries@.len() - i,
        {
            if eq_lit(&self.entries[i].0, key) {
                return Some(i);
            }
            i += 1;
        }
        None
    }
}

} // verus!
