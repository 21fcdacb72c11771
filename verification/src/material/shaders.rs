use vstd::prelude::*;
use vstd::string::*;
use crate::chars::{chars_of, push_char};

verus! {

#[derive(Debug)]
pub struct PreprocessorConfig {
    pub includes: Vec<(String, String)>,
}

impl Default for PreprocessorConfig {
    fn default() -> (c: PreprocessorConfig)
        ensures
            c.includes@.len() == 0,
    {
        PreprocessorConfig { includes: Vec::new() }
    }
}

/// The includes as (name, contents) character sequences.
pub open spec fn include_list(c: &PreprocessorConfig) -> Seq<(Seq<char>, Seq<char>)> {
    c.includes@.map_values(|e: (String, String)| (e.0@, e.1@))
}

/// How comparing `t` with `data` from position `i` on ends, looking at `t[j..]`:
/// 0 when it matches, 1 at a differing character, 2 when `data` ends first.
pub open spec fn scan(data: Seq<char>, i: int, t: Seq<char>, j: int) -> int
    decreases t.len() - j,
{
    if j >= t.len() {
        0
    } else if i + j >= data.len() {
        2
    } else if data[i + j] != t[j] {
        1
    } else {
        scan(data, i, t, j + 1)
    }
}

pub enum Found {
    At(int),
    Nowhere,
    /// The search read past the end of the text.
    Overrun,
}

/// The first position from `i` on where `t` occurs in `data`.
pub open spec fn find_from(data: Seq<char>, i: int, t: Seq<char>) -> Found
    decreases data.len() - i,
{
    if i >= data.len() {
        Found::Nowhere
    } else {
        let s = scan(data, i, t, 0);
        if s == 0 {
            Found::At(i)
        } else if s == 1 {
            find_from(data, i + 1, t)
        } else {
            Found::Overrun
        }
    }
}

/// The first position from `i` on that does not hold `c`.
pub open spec fn skip_char(data: Seq<char>, i: int, c: char) -> int
    decreases data.len() - i,
{
    if i < data.len() && data[i] == c {
        skip_char(data, i + 1, c)
    } else {
        i
    }
}

/// The contents of the first include called `name`.
pub open spec fn lookup_include(inc: Seq<(Seq<char>, Seq<char>)>, name: Seq<char>) -> Option<Seq<char>>
    decreases inc.len(),
{
    if inc.len() == 0 {
        None
    } else if inc[0].0 == name {
        Some(inc[0].1)
    } else {
        lookup_include(inc.drop_first(), name)
    }
}

pub enum Step {
    Done(Seq<char>),
    Next(Seq<char>, int),
    Fails,
}

pub open spec fn include_directive() -> Seq<char> {
    seq!['#', 'i', 'n', 'c', 'l', 'u', 'd', 'e']
}

/// One directive: the text searched from `i` on for `#include`, which is replaced,
/// with its quoted name, by the contents of that include; the search goes on
/// from where the name's closing quote was. `Fails` where the preprocessor panics.
pub open spec fn step(res: Seq<char>, i: int, inc: Seq<(Seq<char>, Seq<char>)>) -> Step {
    match find_from(res, i, include_directive()) {
        Found::Overrun => Step::Fails,
        Found::Nowhere => Step::Done(res),
        Found::At(d) => {
            let b = skip_char(res, d + 8, ' ');
            if b >= res.len() || res[b] != '"' {
                Step::Fails
            } else {
                match find_from(res, b + 1, seq!['"']) {
                    Found::At(e) => match lookup_include(inc, res.subrange(b + 1, e)) {
                        Some(content) => Step::Next(
                            res.subrange(0, d) + content + res.subrange(e + 1, res.len() as int),
                            e,
                        ),
                        None => Step::Fails,
                    },
                    _ => Step::Fails,
                }
            }
        },
    }
}

/// The text after at most `fuel` directives, `None` if it fails or needs more.
pub open spec fn run(res: Seq<char>, i: int, inc: Seq<(Seq<char>, Seq<char>)>, fuel: nat) -> Option<Seq<char>>
    decreases fuel,
{
    if fuel == 0 {
        None
    } else {
        match step(res, i, inc) {
            Step::Done(r) => Some(r),
            Step::Fails => None,
            Step::Next(r, j) => run(r, j, inc, (fuel - 1) as nat),
        }
    }
}

/// The preprocessed text: `None` where preprocessing panics or never ends.
pub open spec fn preprocess_spec(source: Seq<char>, inc: Seq<(Seq<char>, Seq<char>)>) -> Option<Seq<char>> {
    if exists|fuel: nat| #[trigger] run(source, 0, inc, fuel) is Some {
        run(source, 0, inc, choose|fuel: nat| #[trigger] run(source, 0, inc, fuel) is Some)
    } else {
        None
    }
}

proof fn lemma_run_more_fuel(res: Seq<char>, i: int, inc: Seq<(Seq<char>, Seq<char>)>, f1: nat, f2: nat)
    requires
        run(res, i, inc, f1) is Some,
        f1 <= f2,
    ensures
        run(res, i, inc, f2) == run(res, i, inc, f1),
    decreases f1,
{
    if f1 > 0 {
        match step(res, i, inc) {
            Step::Next(r, j) => lemma_run_more_fuel(r, j, inc, (f1 - 1) as nat, (f2 - 1) as nat),
            _ => {},
        }
    }
}

proof fn lemma_scan_matched(data: Seq<char>, i: int, t: Seq<char>, j: int)
    requires
        0 <= j <= t.len(),
        scan(data, i, t, j) == 0,
    ensures
        j < t.len() ==> i + t.len() <= data.len(),
    decreases t.len() - j,
{
    if j < t.len() {
        lemma_scan_matched(data, i, t, j + 1);
    }
}

proof fn lemma_found_at(data: Seq<char>, i: int, t: Seq<char>)
    ensures
        find_from(data, i, t) matches Found::At(p) ==> i <= p < data.len() && scan(data, p, t, 0) == 0,
    decreases data.len() - i,
{
    if i < data.len() && scan(data, i, t, 0) == 1 {
        lemma_found_at(data, i + 1, t);
    }
}

/// Moves `n` to the first position from `n` on where `target` occurs, if any;
/// otherwise to the end of `data` (or leaves it where it is past the end).
fn find(data: &Vec<char>, n: &mut usize, target: &[char]) -> (r: bool)
    requires
        !(find_from(data@, *old(n) as int, target@) is Overrun),
    ensures
        match find_from(data@, *old(n) as int, target@) {
            Found::At(p) => r && *final(n) == p,
            _ => !r && *final(n) == if *old(n) >= data@.len() { *old(n) as int } else { data@.len() as int },
        },
{
    if *n >= data.len() {
        return false;
    }
    let ghost t = target@;
    let ghost start = *n;
    let mut i: usize = *n;
    while i < data.len()
        invariant
            start == *old(n),
            start <= i <= data@.len(),
            start < data@.len(),
            *n == i,
            t == target@,
            find_from(data@, start as int, t) == find_from(data@, i as int, t),
            !(find_from(data@, i as int, t) is Overrun),
        decreases data@.len() - i,
    {
        assert(scan(data@, i as int, t, 0) != 2);
        let mut j: usize = 0;
        let mut mismatch = false;
        while j < target.len()
            invariant_except_break
                !mismatch,
            invariant
                i < data@.len(),
                t == target@,
                0 <= j <= target@.len(),
                scan(data@, i as int, t, 0) == scan(data@, i as int, t, j as int),
                scan(data@, i as int, t, 0) != 2,
            ensures
                mismatch ==> scan(data@, i as int, t, 0) == 1,
                !mismatch ==> scan(data@, i as int, t, 0) == 0,
            decreases target@.len() - j,
        {
            assert(i + j < data.len());
            if data[i + j] != target[j] {
                mismatch = true;
                break;
            }
            j = j + 1;
        }
        if !mismatch {
            assert(find_from(data@, i as int, t) == Found::At(i as int));
            return true;
        }
        *n += 1;
        i = i + 1;
    }
    false
}

/// Moves `n` past the run of `target` characters that starts there.
fn skip_character(data: &Vec<char>, n: &mut usize, target: char)
    ensures
        *final(n) == skip_char(data@, *old(n) as int, target),
        *old(n) <= *final(n),
        *old(n) <= data@.len() ==> *final(n) <= data@.len(),
{
    let ghost start = *n;
    while *n < data.len() && data[*n] == target
        invariant
            start <= *n,
            start <= data@.len() ==> *n <= data@.len(),
            skip_char(data@, start as int, target) == skip_char(data@, *n as int, target),
        decreases data@.len() - *n,
    {
        *n += 1;
    }
}

/// Whether `name` is the text `res[from..to]`.
fn names_equal(name: &String, res: &Vec<char>, from: usize, to: usize) -> (b: bool)
    requires
        from <= to <= res@.len(),
    ensures
        b == (name@ == res@.subrange(from as int, to as int)),
{
    let text = name.as_str();
    let n = text.unicode_len();
    if n != to - from {
        return false;
    }
    let mut k: usize = 0;
    while k < n
        invariant
            text@ == name@,
            n == name@.len(),
            n == to - from,
            from <= to <= res@.len(),
            0 <= k <= n,
            forall|m: int| 0 <= m < k ==> name@[m] == res@[from + m],
        decreases n - k,
    {
        if text.get_char(k) != res[from + k] {
            assert(name@[k as int] != res@.subrange(from as int, to as int)[k as int]);
            assert(name@ != res@.subrange(from as int, to as int));
            return false;
        }
        k = k + 1;
    }
    assert(name@ =~= res@.subrange(from as int, to as int));
    true
}

/// The position of the first include called `res[from..to]`.
fn find_include(config: &PreprocessorConfig, res: &Vec<char>, from: usize, to: usize) -> (r: Option<usize>)
    requires
        from <= to <= res@.len(),
    ensures
        match r {
            Some(k) => k < config.includes@.len() && lookup_include(include_list(config), res@.subrange(from as int, to as int))
                == Some(config.includes@[k as int].1@),
            None => lookup_include(include_list(config), res@.subrange(from as int, to as int)) is None,
        },
{
    let ghost name = res@.subrange(from as int, to as int);
    let ghost inc = include_list(config);
    let mut k: usize = 0;
    assert(inc.subrange(0, inc.len() as int) =~= inc);
    while k < config.includes.len()
        invariant
            0 <= k <= config.includes@.len(),
            inc == include_list(config),
            name == res@.subrange(from as int, to as int),
            from <= to <= res@.len(),
            lookup_include(inc, name) == lookup_include(inc.subrange(k as int, inc.len() as int), name),
        decreases config.includes@.len() - k,
    {
        let ghost rest = inc.subrange(k as int, inc.len() as int);
        assert(rest[0] == (config.includes@[k as int].0@, config.includes@[k as int].1@));
        if names_equal(&config.includes[k].0, res, from, to) {
            return Some(k);
        }
        assert(rest.drop_first() =~= inc.subrange(k + 1, inc.len() as int));
        k = k + 1;
    }
    None
}

/// Replaces each `#include "name"` directive of `source` by the contents that
/// `config` gives for `name`, searching on from where each replaced directive ended.
pub fn preprocess_shader(source: &str, config: &PreprocessorConfig) -> (r: String)
    requires
        preprocess_spec(source@, include_list(config)) is Some,
    ensures
        r@ == preprocess_spec(source@, include_list(config)).unwrap(),
{
    let ghost inc = include_list(config);
    let ghost target = preprocess_spec(source@, inc).unwrap();
    let ghost mut fuel: nat = choose|fuel: nat| #[trigger] run(source@, 0, inc, fuel) is Some;
    let mut res = chars_of(source);
    let directive: [char; 8] = ['#', 'i', 'n', 'c', 'l', 'u', 'd', 'e'];
    let quote: [char; 1] = ['"'];
    assert(directive@ =~= include_directive());
    assert(quote@ =~= seq!['"']);
    let mut i: usize = 0;
    loop
        invariant_except_break
            run(res@, i as int, inc, fuel) == Some(target),
        invariant
            inc == include_list(config),
            directive@ == include_directive(),
            quote@ == seq!['"'],
        ensures
            res@ == target,
        decreases fuel,
    {
        let ghost i0 = i as int;
        let ghost st = step(res@, i0, inc);
        assert(fuel > 0);
        assert(!(st is Fails));
        if !find(&res, &mut i, directive.as_slice()) {
            assert(st == Step::Done(res@));
            break;
        }
        let directive_start_ix = i;
        proof {
            lemma_found_at(res@, i0, include_directive());
            lemma_scan_matched(res@, directive_start_ix as int, include_directive(), 0);
        }
        assert(directive_start_ix + 8 <= res.len());
        i += 8;
        skip_character(&res, &mut i, ' ');
        let ghost b = i as int;
        assert(b < res@.len() && res@[b] == '"');
        i += 1;
        let filename_start_ix = i;
        proof {
            lemma_found_at(res@, b + 1, seq!['"']);
        }
        let found = find(&res, &mut i, quote.as_slice());
        let filename_end_ix = i;
        assert(filename_start_ix <= filename_end_ix < res.len());
        let k = find_include(config, &res, filename_start_ix, filename_end_ix).unwrap();
        let content = chars_of(config.includes[k].1.as_str());
        let mut next: Vec<char> = Vec::new();
        let mut m: usize = 0;
        while m < directive_start_ix
            invariant
                0 <= m <= directive_start_ix,
                directive_start_ix <= res@.len(),
                next@ == res@.subrange(0, m as int),
            decreases directive_start_ix - m,
        {
            next.push(res[m]);
            m = m + 1;
            assert(next@ =~= res@.subrange(0, m as int));
        }
        m = 0;
        while m < content.len()
            invariant
                0 <= m <= content@.len(),
                next@ == res@.subrange(0, directive_start_ix as int) + content@.subrange(0, m as int),
            decreases content@.len() - m,
        {
            next.push(content[m]);
            m = m + 1;
            assert(next@ =~= res@.subrange(0, directive_start_ix as int) + content@.subrange(0, m as int));
        }
        assert(content@.subrange(0, content@.len() as int) =~= content@);
        m = filename_end_ix + 1;
        assert(next@ =~= res@.subrange(0, directive_start_ix as int) + content@ + res@.subrange(filename_end_ix + 1, m as int));
        while m < res.len()
            invariant
                filename_end_ix + 1 <= m <= res@.len(),
                next@ == res@.subrange(0, directive_start_ix as int) + content@ + res@.subrange(filename_end_ix + 1, m as int),
            decreases res@.len() - m,
        {
            next.push(res[m]);
            m = m + 1;
            assert(next@ =~= res@.subrange(0, directive_start_ix as int) + content@ + res@.subrange(filename_end_ix + 1, m as int));
        }
        assert(st == Step::Next(next@, filename_end_ix as int));
        res = next;
        proof {
            fuel = (fuel - 1) as nat;
        }
    }
    let mut out = String::new();
    let mut m: usize = 0;
    while m < res.len()
        invariant
            0 <= m <= res@.len(),
            out@ == res@.subrange(0, m as int),
        decreases res@.len() - m,
    {
        push_char(&mut out, res[m]);
        m = m + 1;
        assert(out@ =~= res@.subrange(0, m as int));
    }
    assert(res@.subrange(0, res@.len() as int) =~= res@);
    out
}


/// A source that holds no `#include` directive comes out unchanged, whatever the
/// includes.
pub proof fn law_no_directive_no_change(source: Seq<char>, inc: Seq<(Seq<char>, Seq<char>)>)
    requires
        find_from(source, 0, include_directive()) == Found::Nowhere,
    ensures
        preprocess_spec(source, inc) == Some(source),
{
    assert(run(source, 0, inc, 1) == Some(source));
    let fuel = choose|fuel: nat| #[trigger] run(source, 0, inc, fuel) is Some;
    assert(run(source, 0, inc, fuel) is Some);
    assert(fuel >= 1);
    lemma_run_more_fuel(source, 0, inc, 1, fuel);
}

/// An include is found by its exact name: the contents looked up for `name` are
/// those of the first include whose name equals `name`, and there are none exactly
/// when no include has that name. An include whose name merely starts or ends like
/// `name` is never chosen.
pub proof fn law_include_found_by_exact_name(inc: Seq<(Seq<char>, Seq<char>)>, name: Seq<char>)
    ensures
        lookup_include(inc, name) is None <==> forall|k: int| 0 <= k < inc.len() ==> #[trigger] inc[k].0 != name,
        lookup_include(inc, name) matches Some(c) ==> exists|k: int|
            0 <= k < inc.len() && #[trigger] inc[k].0 == name && c == inc[k].1 && forall|j: int|
                0 <= j < k ==> #[trigger] inc[j].0 != name,
    decreases inc.len(),
{
    if inc.len() > 0 {
        let rest = inc.drop_first();
        law_include_found_by_exact_name(rest, name);
        if inc[0].0 != name {
            assert forall|k: int| 0 <= k < rest.len() implies rest[k] == inc[k + 1] by {}
            if lookup_include(inc, name) is None {
                assert forall|k: int| 0 <= k < inc.len() implies #[trigger] inc[k].0 != name by {
                    if k > 0 {
                        assert(rest[k - 1] == inc[k]);
                    }
                }
            } else {
                let c = lookup_include(inc, name).unwrap();
                let k = choose|k: int|
                    0 <= k < rest.len() && #[trigger] rest[k].0 == name && c == rest[k].1 && forall|j: int|
                        0 <= j < k ==> #[trigger] rest[j].0 != name;
                assert(inc[k + 1].0 == name);
                assert forall|j: int| 0 <= j < k + 1 implies #[trigger] inc[j].0 != name by {
                    if j > 0 {
                        assert(rest[j - 1] == inc[j]);
                    }
                }
            }
        } else {
            assert(inc[0].0 == name);
        }
    }
}

/// A match of `t` at `p` means the text there is `t`.
proof fn lemma_scan_text(data: Seq<char>, p: int, t: Seq<char>, j: int)
    requires
        0 <= p,
        0 <= j <= t.len(),
        scan(data, p, t, j) == 0,
    ensures
        p + t.len() <= data.len() || j == t.len(),
        forall|m: int| j <= m < t.len() ==> data[p + m] == t[m],
    decreases t.len() - j,
{
    if j < t.len() {
        lemma_scan_text(data, p, t, j + 1);
    }
}

/// Before the position found, `t` does not match.
proof fn lemma_find_first(data: Seq<char>, i: int, t: Seq<char>)
    ensures
        find_from(data, i, t) matches Found::At(p) ==> forall|q: int| i <= q < p ==> scan(data, q, t, 0) == 1,
    decreases data.len() - i,
{
    if i < data.len() && scan(data, i, t, 0) == 1 {
        lemma_find_first(data, i + 1, t);
    }
}

/// Skipping `c` from `i` passes only over `c` and stops at another character or the end.
proof fn lemma_skip_char(data: Seq<char>, i: int, c: char)
    ensures
        i <= skip_char(data, i, c),
        forall|m: int| i <= m < skip_char(data, i, c) ==> data[m] == c,
        skip_char(data, i, c) < data.len() ==> data[skip_char(data, i, c)] != c,
    decreases data.len() - i,
{
    if i < data.len() && data[i] == c {
        lemma_skip_char(data, i + 1, c);
    }
}

/// Each replaced directive is an `#include` at or after the search position, then
/// spaces, then a quoted name holding no quote; it is replaced by the contents of the
/// first include whose name is exactly that name, and the search goes on from the
/// closing quote.
pub proof fn law_directive_spliced_with_exact_include(res: Seq<char>, i: int, inc: Seq<(Seq<char>, Seq<char>)>)
    requires
        0 <= i,
    ensures
        step(res, i, inc) matches Step::Next(r, j) ==> exists|d: int, b: int, e: int, k: int|
            {
                &&& i <= d && d + 8 <= b < e < res.len()
                &&& res.subrange(d, d + 8) == include_directive()
                &&& (forall|m: int| d + 8 <= m < b ==> res[m] == ' ')
                &&& res[b] == '"' && res[e] == '"'
                &&& (forall|m: int| b < m < e ==> res[m] != '"')
                &&& 0 <= k < inc.len()
                &&& inc[k].0 == res.subrange(b + 1, e)
                &&& (forall|l: int| 0 <= l < k ==> inc[l].0 != res.subrange(b + 1, e))
                &&& r == res.subrange(0, d) + inc[k].1 + res.subrange(e + 1, res.len() as int)
                &&& j == e
            },
{
    if step(res, i, inc) is Next {
        let d = find_from(res, i, include_directive())->At_0;
        lemma_found_at(res, i, include_directive());
        lemma_scan_text(res, d, include_directive(), 0);
        assert(res.subrange(d, d + 8) =~= include_directive());
        let b = skip_char(res, d + 8, ' ');
        lemma_skip_char(res, d + 8, ' ');
        let e = find_from(res, b + 1, seq!['"'])->At_0;
        lemma_found_at(res, b + 1, seq!['"']);
        lemma_scan_text(res, e, seq!['"'], 0);
        lemma_find_first(res, b + 1, seq!['"']);
        assert forall|m: int| b < m < e implies res[m] != '"' by {
            assert(scan(res, m, seq!['"'], 0) == 1);
            if res[m] == '"' {
                assert(seq!['"'][0] == '"');
                assert(scan(res, m, seq!['"'], 1) == 0);
            }
        }
        let name = res.subrange(b + 1, e);
        law_include_found_by_exact_name(inc, name);
        let c = lookup_include(inc, name).unwrap();
        let k = choose|k: int|
            0 <= k < inc.len() && #[trigger] inc[k].0 == name && c == inc[k].1 && forall|j: int|
                0 <= j < k ==> #[trigger] inc[j].0 != name;
        assert(res[e] == seq!['"'][0]);
        assert(forall|l: int| 0 <= l < k ==> #[trigger] inc[l].0 != name);
    }
}

} // verus!
