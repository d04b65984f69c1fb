//! Which monitors a pass or a merge of the cache applies to.
use vstd::prelude::*;
use vstd::string::*;

use crate::table::text_eq;

verus! {

/// The texts that a vector of strings holds.
pub open spec fn texts(v: Seq<String>) -> Seq<Seq<char>> {
    v.map_values(|s: String| s@)
}

/// Whether `name` stands in a list of names.
pub fn contains_text(list: &Vec<String>, name: &String) -> (r: bool)
    ensures
        r == texts(list@).contains(name@),
{
    let mut i: usize = 0;
    while i < list.len()
        invariant
            i <= list@.len(),
            forall|j: int| 0 <= j < i ==> list@[j]@ != name@,
        decreases list@.len() - i,
    {
        if text_eq(list[i].as_str(), name.as_str()) {
            assert(texts(list@)[i as int] == name@);
            return true;
        }
        i = i + 1;
    }
    assert(!texts(list@).contains(name@)) by {
        if texts(list@).contains(name@) {
            let j = choose|j: int| 0 <= j < texts(list@).len() && texts(list@)[j] == name@;
            assert(list@[j]@ == name@);
        }
    }
    false
}

/// A choice of monitors: every connected one, or those named.
#[derive(Debug)]
pub enum Monitors {
    All,
    Listed(Vec<String>),
}

impl Monitors {
    pub open spec fn includes_spec(self, monitor: Seq<char>) -> bool {
        match self {
            Monitors::All => true,
            Monitors::Listed(list) => texts(list@).contains(monitor),
        }
    }

    /// The choice of every connected monitor.
    pub fn default() -> (r: Monitors)
        ensures
            r is All,
    {
        Monitors::All
    }

    /// Whether the choice takes in `monitor`: always for `All`, else when it
    /// is named.
    pub fn includes(&self, monitor: &String) -> (r: bool)
        ensures
            r == self.includes_spec(monitor@),
    {
        match self {
            Monitors::All => true,
            Monitors::Listed(list) => contains_text(list, monitor),
        }
    }

    /// The monitors that a switch covers: the one named, or all.
    pub fn for_switch(monitor: Option<String>) -> (r: Monitors)
        ensures
            r.deep() == match monitor {
                Some(m) => Some(seq![m@]),
                None => None::<Seq<Seq<char>>>,
            },
    {
        match monitor {
            Some(m) => {
                let mut v: Vec<String> = Vec::new();
                v.push(m);
                assert(texts(v@) =~= seq![v@[0]@]);
                Monitors::Listed(v)
            },
            None => Monitors::All,
        }
    }

    /// A copy of the choice.
    pub fn duplicate(&self) -> (r: Monitors)
        ensures
            r.deep() == self.deep(),
    {
        match self {
            Monitors::All => Monitors::All,
            Monitors::Listed(list) => {
                let l = list.clone();
                proof {
                    assert forall|i: int| 0 <= i < l@.len() implies l@[i] == list@[i] by {
                        assert(vstd::pervasive::cloned(list[i], l[i]));
                    }
                    assert(texts(l@) =~= texts(list@));
                }
                Monitors::Listed(l)
            },
        }
    }

    /// The choice with names as texts.
    pub open spec fn deep(self) -> Option<Seq<Seq<char>>> {
        match self {
            Monitors::All => None,
            Monitors::Listed(list) => Some(texts(list@)),
        }
    }
}

/// Why a pass over the monitors could not be made.
#[derive(Clone, Copy, Debug, PartialEq, Eq, Structural)]
pub enum PassError {
    /// None of the chosen monitors is connected, or none is connected at all.
    NoValidMonitor,
    /// Not even the fallback image exists.
    NoValidImage,
}

/// The named monitors that are connected, in the order named.
pub open spec fn connected_only(names: Seq<Seq<char>>, connected: Seq<Seq<char>>) -> Seq<
    Seq<char>,
>
    decreases names.len(),
{
    if names.len() == 0 {
        Seq::empty()
    } else {
        let rest = connected_only(names.drop_last(), connected);
        if connected.contains(names.last()) {
            rest.push(names.last())
        } else {
            rest
        }
    }
}

/// The named monitors that are not connected, in the order named.
pub open spec fn unconnected(names: Seq<Seq<char>>, connected: Seq<Seq<char>>) -> Seq<Seq<char>>
    decreases names.len(),
{
    if names.len() == 0 {
        Seq::empty()
    } else {
        let rest = unconnected(names.drop_last(), connected);
        if connected.contains(names.last()) {
            rest
        } else {
            rest.push(names.last())
        }
    }
}

/// The monitors that a choice names but that are not connected; none for
/// `All`.
pub fn missing_monitors(choice: &Monitors, connected: &Vec<String>) -> (r: Vec<String>)
    ensures
        texts(r@) == match choice.deep() {
            None => Seq::empty(),
            Some(names) => unconnected(names, texts(connected@)),
        },
{
    let mut out: Vec<String> = Vec::new();
    match choice {
        Monitors::All => {
            assert(texts(out@) =~= Seq::empty());
        },
        Monitors::Listed(names) => {
            let mut i: usize = 0;
            while i < names.len()
                invariant
                    i <= names@.len(),
                    texts(out@) == unconnected(texts(names@).take(i as int), texts(connected@)),
                decreases names@.len() - i,
            {
                proof {
                    assert(texts(names@).take(i + 1).drop_last() =~= texts(names@).take(i as int));
                    assert(texts(names@).take(i + 1).last() == names@[i as int]@);
                }
                if !contains_text(connected, &names[i]) {
                    let m = names[i].clone();
                    let ghost before = out@;
                    out.push(m);
                    assert(texts(out@) =~= texts(before).push(m@));
                }
                i = i + 1;
            }
            assert(texts(names@).take(names@.len() as int) =~= texts(names@));
        },
    }
    out
}

/// The monitors that a pass covers, or why there are none.
pub open spec fn pass_targets(choice: Option<Seq<Seq<char>>>, connected: Seq<Seq<char>>) -> Result<
    Seq<Seq<char>>,
    PassError,
> {
    let t = match choice {
        None => connected,
        Some(names) => connected_only(names, connected),
    };
    if t.len() > 0 {
        Ok(t)
    } else {
        Err(PassError::NoValidMonitor)
    }
}

/// The monitors that a pass covers: every connected one for `All`, else the
/// named ones that are connected. Fails when that leaves none, also when no
/// monitor is connected at all.
pub fn target_monitors(choice: &Monitors, connected: &Vec<String>) -> (r: Result<
    Vec<String>,
    PassError,
>)
    ensures
        match pass_targets(choice.deep(), texts(connected@)) {
            Ok(t) => r matches Ok(v) && texts(v@) == t,
            Err(e) => r == Err::<Vec<String>, PassError>(e),
        },
{
    let targets = match choice {
        Monitors::All => {
            let l = connected.clone();
            proof {
                assert forall|i: int| 0 <= i < l@.len() implies l@[i] == connected@[i] by {
                    assert(vstd::pervasive::cloned(connected[i], l[i]));
                }
                assert(texts(l@) =~= texts(connected@));
            }
            l
        },
        Monitors::Listed(names) => {
            let mut out: Vec<String> = Vec::new();
            let mut i: usize = 0;
            while i < names.len()
                invariant
                    i <= names@.len(),
                    texts(out@) == connected_only(texts(names@).take(i as int), texts(connected@)),
                decreases names@.len() - i,
            {
                proof {
                    assert(texts(names@).take(i + 1).drop_last() =~= texts(names@).take(i as int));
                    assert(texts(names@).take(i + 1).last() == names@[i as int]@);
                }
                if contains_text(connected, &names[i]) {
                    out.push(names[i].clone());
                    assert(texts(out@) =~= connected_only(texts(names@).take(i as int), texts(connected@)).push(names@[i as int]@));
                }
                i = i + 1;
            }
            assert(texts(names@).take(names@.len() as int) =~= texts(names@));
            out
        },
    };
    if targets.len() > 0 {
        Ok(targets)
    } else {
        Err(PassError::NoValidMonitor)
    }
}


/// Whether `i` is the first position of `c` in `s`.
pub open spec fn first_at(s: Seq<char>, c: char, i: int) -> bool {
    &&& 0 <= i < s.len()
    &&& s[i] == c
    &&& forall|j: int| 0 <= j < i ==> s[j] != c
}

/// The first position of `c` in `s`, where `s` holds it.
pub open spec fn first_of(s: Seq<char>, c: char) -> int {
    choose|i: int| first_at(s, c, i)
}

/// The monitor named by a line `name:rest` of the presenter's answer.
pub open spec fn name_of_line(line: Seq<char>) -> Option<Seq<char>> {
    if line.contains(':') {
        Some(line.take(first_of(line, ':')))
    } else {
        None
    }
}

/// The monitors that the presenter's answer names, one per line, or the
/// first line that names none. A final line break ends the last line.
pub open spec fn names_of_answer(s: Seq<char>) -> Result<Seq<Seq<char>>, Seq<char>>
    decreases s.len(),
{
    if s.len() == 0 {
        Ok(Seq::empty())
    } else {
        let i = first_of(s, '\n');
        let has_break = s.contains('\n') && 0 <= i < s.len();
        let line = if has_break {
            s.take(i)
        } else {
            s
        };
        let rest = if has_break {
            s.skip(i + 1)
        } else {
            Seq::empty()
        };
        match name_of_line(line) {
            None => Err(line),
            Some(n) => match names_of_answer(rest) {
                Ok(ns) => Ok(seq![n] + ns),
                Err(e) => Err(e),
            },
        }
    }
}

/// The first position of `c` in `s` from `from` on, before `to`.
fn find_char(s: &str, c: char, from: usize, to: usize) -> (r: Option<usize>)
    requires
        from <= to <= s@.len(),
    ensures
        r matches Some(i) ==> from <= i < to && first_at(s@.subrange(from as int, to as int), c, i - from),
        r is None ==> !s@.subrange(from as int, to as int).contains(c),
{
    let mut i = from;
    while i < to
        invariant
            from <= i <= to,
            to <= s@.len(),
            forall|j: int| from <= j < i ==> s@[j] != c,
        decreases to - i,
    {
        if s.get_char(i) == c {
            return Some(i);
        }
        i = i + 1;
    }
    proof {
        let t = s@.subrange(from as int, to as int);
        if t.contains(c) {
            let j = choose|j: int| 0 <= j < t.len() && t[j] == c;
            assert(s@[from + j] == c);
        }
    }
    None
}

/// The first position is unique.
proof fn lemma_first_of(s: Seq<char>, c: char, i: int)
    requires
        first_at(s, c, i),
    ensures
        s.contains(c),
        first_of(s, c) == i,
{
    assert(s[i] == c);
    let k = first_of(s, c);
    assert(first_at(s, c, k));
    if k < i {
        assert(s[k] != c);
    } else if i < k {
        assert(s[i] != c);
    }
}

/// Reads the monitors from the presenter's answer: each line is `name:rest`,
/// and a line without `:` is returned as the error.
pub fn monitor_names(output: &str) -> (r: Result<Vec<String>, String>)
    ensures
        match names_of_answer(output@) {
            Ok(ns) => r matches Ok(v) && texts(v@) == ns,
            Err(line) => r matches Err(e) && e@ == line,
        },
{
    let n = output.unicode_len();
    let mut names: Vec<String> = Vec::new();
    let mut start: usize = 0;
    assert(output@.skip(0) =~= output@);
    proof {
        if let Ok(ns) = names_of_answer(output@) {
            assert(texts(names@) + ns =~= ns);
        }
    }
    while start < n
        invariant
            n == output@.len(),
            start <= n,
            names_of_answer(output@) == match names_of_answer(output@.skip(start as int)) {
                Ok(ns) => Ok(texts(names@) + ns),
                Err(e) => Err::<Seq<Seq<char>>, Seq<char>>(e),
            },
        decreases n - start,
    {
        let ghost rest = output@.skip(start as int);
        assert(rest =~= output@.subrange(start as int, n as int));
        let end = match find_char(output, '\n', start, n) {
            Some(i) => {
                proof {
                    lemma_first_of(rest, '\n', i - start);
                }
                i
            },
            None => n,
        };
        let ghost line = output@.subrange(start as int, end as int);
        let ghost has_break = rest.contains('\n') && 0 <= first_of(rest, '\n') < rest.len();
        assert(has_break == (end < n));
        assert(line =~= if has_break {
            rest.take(first_of(rest, '\n'))
        } else {
            rest
        });
        let next = if end < n {
            end + 1
        } else {
            n
        };
        assert(output@.skip(next as int) =~= if has_break {
            rest.skip(first_of(rest, '\n') + 1)
        } else {
            Seq::<char>::empty()
        });
        match find_char(output, ':', start, end) {
            Some(c) => {
                proof {
                    lemma_first_of(line, ':', c - start);
                }
                let name = output.substring_char(start, c);
                assert(name@ =~= line.take(c - start));
                let ghost before = names@;
                names.push(String::from_str(name));
                assert(texts(names@) =~= texts(before).push(name@));
                proof {
                    let tail = names_of_answer(output@.skip(next as int));
                    if let Ok(ns) = tail {
                        assert(texts(names@) + ns =~= texts(before) + (seq![name@] + ns));
                    }
                }
            },
            None => {
                assert(!line.contains(':'));
                return Err(String::from_str(output.substring_char(start, end)));
            },
        }
        start = next;
    }
    assert(output@.skip(start as int) =~= Seq::<char>::empty());
    assert(texts(names@) + Seq::<Seq<char>>::empty() =~= texts(names@));
    Ok(names)
}

} // verus!
