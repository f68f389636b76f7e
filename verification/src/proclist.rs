//! The Process Picker's list: which `/proc` entries are processes, what each is called, and
//! their order.

use vstd::prelude::*;

use crate::appstate::ProcessEntry;
use crate::sets::{find_char, find_in_chars, split_on};
use crate::text::{chars_of, parse_radix, radix_parse, string_from_chars, trim_seq, trim_string};

verus! {

/// The pid a `/proc` entry named `name` stands for: the name read as a decimal `u32` (an
/// optional `+` first), if it is one.
pub open spec fn entry_pid(name: Seq<char>) -> Option<u32> {
    match radix_parse(name, 10, u32::MAX as nat) {
        Some(v) => Some(v as u32),
        None => None,
    }
}

/// The pid a `/proc` entry named `name` stands for (see [`entry_pid`]).
pub fn pid_of_entry(name: &str) -> (r: Option<u32>)
    ensures
        r == entry_pid(name@),
{
    let s = chars_of(name);
    proof {
        assert(s@.subrange(0, s@.len() as int) =~= name@);
    }
    match parse_radix(&s, 0, s.len(), 10, 0xffff_ffff) {
        Some(v) => Some(v as u32),
        None => None,
    }
}

/// The components of a Unix path `p` that name something: its `/`-separated pieces, without
/// the empty ones (from repeated, leading or trailing `/`) and without `.`.
pub open spec fn named_components(p: Seq<char>) -> Seq<Seq<char>> {
    split_on(p, '/').filter(|q: Seq<char>| q.len() > 0 && q != seq!['.'])
}

/// `std::path::Path::file_name` on Unix: the last component of the path `p`, or `None` when
/// there is none (`""`, `/`, `.`) or it is `..`.
pub open spec fn path_file_name(p: Seq<char>) -> Option<Seq<char>> {
    let c = named_components(p);
    if c.len() == 0 || c.last() == seq!['.', '.'] {
        None
    } else {
        Some(c.last())
    }
}

/// `Path::file_name` of `p`, as [`path_file_name`] states it; the component's text is taken as
/// it is (a path made from a `&str` is valid UTF-8, so nothing is replaced).
#[verifier::external_body]
fn file_name_of(p: &str) -> (r: Option<String>)
    ensures
        match r {
            Some(n) => path_file_name(p@) == Some(n@),
            None => path_file_name(p@) is None,
        },
{
    std::path::Path::new(p).file_name().map(|n| n.to_string_lossy().into_owned())
}

/// The first command-line argument in a `cmdline` text: everything before the first NUL.
pub open spec fn first_argument(cmdline: Seq<char>) -> Seq<char> {
    match find_char(cmdline, '\0') {
        Some(k) => cmdline.take(k),
        None => cmdline,
    }
}

/// What a process is called, from its `cmdline` and `comm` texts (each absent when it could
/// not be read): the last path component of its first argument, else the argument itself;
/// with an empty first argument, the trimmed `comm`; else `?`.
pub open spec fn process_name_spec(cmdline: Option<Seq<char>>, comm: Option<Seq<char>>) -> Seq<char> {
    let arg = match cmdline {
        Some(c) => first_argument(c),
        None => Seq::empty(),
    };
    if arg.len() > 0 {
        match path_file_name(arg) {
            Some(n) => n,
            None => arg,
        }
    } else {
        match comm {
            Some(c) => trim_seq(c),
            None => "?"@,
        }
    }
}

/// What a process is called (see [`process_name_spec`]).
pub fn process_name(cmdline: Option<&str>, comm: Option<&str>) -> (r: String)
    ensures
        r@ == process_name_spec(
            match cmdline {
                Some(c) => Some(c@),
                None => None,
            },
            match comm {
                Some(c) => Some(c@),
                None => None,
            },
        ),
{
    if let Some(c) = cmdline {
        let s = chars_of(c);
        let n = s.len();
        proof {
            assert(s@.subrange(0, n as int) =~= c@);
        }
        let end = match find_in_chars(&s, 0, n, '\0') {
            Some(k) => k,
            None => n,
        };
        proof {
            assert(s@.take(end as int) =~= first_argument(c@));
        }
        if end > 0 {
            let arg = string_from_chars(crate::text::subslice(&s, 0, end));
            return match file_name_of(arg.as_str()) {
                Some(name) => name,
                None => arg,
            };
        }
    }
    match comm {
        Some(c) => trim_string(c),
        None => String::from_str("?"),
    }
}

/// `list` ordered by pid.
pub open spec fn sorted_by_pid(list: Seq<ProcessEntry>) -> bool {
    forall|i: int, j: int| 0 <= i < j < list.len() ==> list[i].pid <= list[j].pid
}

/// Where `pid` goes in `sorted`: before the first entry whose pid is not below it.
fn insertion_point(sorted: &Vec<ProcessEntry>, pid: u32) -> (r: usize)
    requires
        sorted_by_pid(sorted@),
    ensures
        r <= sorted@.len(),
        forall|i: int| 0 <= i < r ==> sorted@[i].pid < pid,
        forall|i: int| r <= i < sorted@.len() ==> sorted@[i].pid >= pid,
{
    let mut p: usize = 0;
    while p < sorted.len() && sorted[p].pid < pid
        invariant
            0 <= p <= sorted@.len(),
            sorted_by_pid(sorted@),
            forall|i: int| 0 <= i < p ==> sorted@[i].pid < pid,
        decreases sorted@.len() - p,
    {
        p = p + 1;
    }
    p
}

/// The processes ordered by pid: the same entries, rearranged.
pub fn sort_by_pid(list: Vec<ProcessEntry>) -> (r: Vec<ProcessEntry>)
    ensures
        sorted_by_pid(r@),
        r@.to_multiset() == list@.to_multiset(),
{
    let ghost whole = list@;
    let mut rest = list;
    let mut out: Vec<ProcessEntry> = Vec::new();
    proof {
        assert(whole.skip(whole.len() as int) =~= Seq::<ProcessEntry>::empty());
        assert(whole.take(whole.len() as int) =~= whole);
    }
    while rest.len() > 0
        invariant
            rest@.len() <= whole.len(),
            rest@ == whole.take(rest@.len() as int),
            sorted_by_pid(out@),
            out@.to_multiset() == whole.skip(rest@.len() as int).to_multiset(),
        decreases rest@.len(),
    {
        let ghost k = rest@.len() as int;
        let entry = rest.pop().unwrap();
        proof {
            assert(entry == whole[k - 1]);
            assert(rest@ =~= whole.take(k - 1));
            assert(whole.skip(k - 1) =~= seq![entry] + whole.skip(k));
            assert(whole.skip(k) + seq![entry] =~= whole.skip(k).push(entry));
        }
        let p = insertion_point(&out, entry.pid);
        let ghost before = out@;
        out.insert(p, entry);
        proof {
            assert(out@ == before.insert(p as int, entry));
            vstd::seq_lib::to_multiset_insert(before, p as int, entry);
            vstd::seq_lib::to_multiset_build(whole.skip(k), entry);
            vstd::seq_lib::lemma_seq_union_to_multiset_commutative(seq![entry], whole.skip(k));
            assert((seq![entry] + whole.skip(k)).to_multiset() == (whole.skip(k) + seq![entry]).to_multiset());
            assert(whole.skip(k - 1).to_multiset() == whole.skip(k).to_multiset().insert(entry));
            assert(out@.to_multiset() == whole.skip(k - 1).to_multiset());
            assert forall|i: int, j: int| 0 <= i < j < out@.len() implies out@[i].pid <= out@[j].pid by {
                if j < p {
                    assert(out@[i] == before[i] && out@[j] == before[j]);
                } else if j == p {
                    assert(out@[i] == before[i]);
                } else if i < p {
                    assert(out@[i] == before[i] && out@[j] == before[j - 1]);
                } else if i == p {
                    assert(out@[j] == before[j - 1]);
                } else {
                    assert(out@[i] == before[i - 1] && out@[j] == before[j - 1]);
                }
            }
        }
    }
    proof {
        assert(whole.skip(0) =~= whole);
    }
    out
}

} // verus!
