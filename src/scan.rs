//! Lexical scan of source text for the modules it imports.
use vstd::prelude::*;

verus! {

/// The characters that Unicode marks `White_Space`: those that separate words.
pub open spec fn is_space(c: char) -> bool {
    let u = c as u32;
    ||| 0x09 <= u <= 0x0D
    ||| u == 0x20
    ||| u == 0x85
    ||| u == 0xA0
    ||| u == 0x1680
    ||| 0x2000 <= u <= 0x200A
    ||| u == 0x2028
    ||| u == 0x2029
    ||| u == 0x202F
    ||| u == 0x205F
    ||| u == 0x3000
}

/// Whether `c` separates words.
pub fn space(c: char) -> (r: bool)
    ensures
        r == is_space(c),
{
    let u = c as u32;
    (0x09 <= u && u <= 0x0D) || u == 0x20 || u == 0x85 || u == 0xA0 || u == 0x1680 || (0x2000
        <= u && u <= 0x200A) || u == 0x2028 || u == 0x2029 || u == 0x202F || u == 0x205F || u
        == 0x3000
}

/// The maximal runs of non-space characters of `s`, in order.
pub open spec fn words(s: Seq<char>) -> Seq<Seq<char>>
    decreases s.len(),
{
    if s.len() == 0 {
        seq![]
    } else {
        let w = words(s.drop_last());
        let c = s.last();
        if is_space(c) {
            w
        } else if s.len() >= 2 && !is_space(s[s.len() - 2]) {
            w.update(w.len() - 1, w.last().push(c))
        } else {
            w.push(seq![c])
        }
    }
}

/// The characters of each string.
pub open spec fn views(v: Seq<String>) -> Seq<Seq<char>> {
    v.map_values(|w: String| w@)
}

/// Relies on std's `String::push`: appends one character.
#[verifier::external_body]
fn push_char(s: &mut String, c: char)
    ensures
        final(s)@ == old(s)@.push(c),
{
    s.push(c)
}

/// The words of `input`, split at white space.
pub fn split_words(input: &str) -> (r: Vec<String>)
    ensures
        views(r@) == words(input@),
{
    let mut done: Vec<String> = Vec::new();
    let mut cur = String::new();
    let n = input.unicode_len();
    let mut i: usize = 0;
    while i < n
        invariant
            n == input@.len(),
            i <= n,
            words(input@.take(i as int)) == if cur@.len() > 0 {
                views(done@).push(cur@)
            } else {
                views(done@)
            },
            cur@.len() > 0 <==> (i > 0 && !is_space(input@[i - 1])),
        decreases n - i,
    {
        let c = input.get_char(i);
        let ghost prev = input@.take(i as int);
        let ghost next = input@.take(i + 1);
        assert(next.drop_last() =~= prev);
        assert(next.last() == c);
        assert(i > 0 ==> next[next.len() - 2] == input@[i - 1]);
        if space(c) {
            if !cur.as_str().is_empty() {
                let w = cur;
                cur = String::new();
                proof {
                    assert(views(done@.push(w)) =~= views(done@).push(w@));
                }
                done.push(w);
            }
        } else {
            let ghost before = cur@;
            push_char(&mut cur, c);
            proof {
                if before.len() > 0 {
                    let w = views(done@).push(before);
                    assert(w.update(w.len() - 1, w.last().push(c)) =~= views(done@).push(cur@));
                } else {
                    assert(cur@ =~= seq![c]);
                }
                assert(words(next) == views(done@).push(cur@));
            }
        }
        i = i + 1;
    }
    if !cur.as_str().is_empty() {
        let w = cur;
        proof {
            assert(views(done@.push(w)) =~= views(done@).push(w@));
        }
        done.push(w);
    }
    assert(input@.take(n as int) =~= input@);
    done
}

/// The punctuation that is cut from both ends of a module name.
pub open spec fn is_syntax(c: char) -> bool {
    c == ';' || c == '\'' || c == '"' || c == ',' || c == '.'
}

/// Whether `c` is punctuation that is cut from a module name.
pub fn syntax(c: char) -> (r: bool)
    ensures
        r == is_syntax(c),
{
    c == ';' || c == '\'' || c == '"' || c == ',' || c == '.'
}

/// `s` without the punctuation at its start.
pub open spec fn trim_front(s: Seq<char>) -> Seq<char>
    decreases s.len(),
{
    if s.len() > 0 && is_syntax(s[0]) {
        trim_front(s.drop_first())
    } else {
        s
    }
}

/// `s` without the punctuation at its end.
pub open spec fn trim_back(s: Seq<char>) -> Seq<char>
    decreases s.len(),
{
    if s.len() > 0 && is_syntax(s.last()) {
        trim_back(s.drop_last())
    } else {
        s
    }
}

/// `s` without the punctuation at either end.
pub open spec fn trim(s: Seq<char>) -> Seq<char> {
    trim_back(trim_front(s))
}

/// Cuts the punctuation `; ' " , .` from both ends of `input`.
pub fn trim_syntax(input: &str) -> (r: &str)
    ensures
        r@ == trim(input@),
{
    let n = input.unicode_len();
    let mut lo: usize = 0;
    assert(input@.subrange(0, n as int) =~= input@);
    while lo < n && syntax(input.get_char(lo))
        invariant
            n == input@.len(),
            lo <= n,
            trim_front(input@) == trim_front(input@.subrange(lo as int, n as int)),
        decreases n - lo,
    {
        assert(input@.subrange(lo as int, n as int).drop_first() =~= input@.subrange(
            lo + 1,
            n as int,
        ));
        lo = lo + 1;
    }
    let mut hi: usize = n;
    while hi > lo && syntax(input.get_char(hi - 1))
        invariant
            n == input@.len(),
            lo <= hi <= n,
            trim_front(input@) == input@.subrange(lo as int, n as int),
            trim(input@) == trim_back(input@.subrange(lo as int, hi as int)),
        decreases hi - lo,
    {
        assert(input@.subrange(lo as int, hi as int).drop_last() =~= input@.subrange(
            lo as int,
            hi - 1,
        ));
        hi = hi - 1;
    }
    input.substring_char(lo, hi)
}

/// The keyword `import`.
pub open spec fn import_kw() -> Seq<char> {
    seq!['i', 'm', 'p', 'o', 'r', 't']
}

/// The keyword `from`.
pub open spec fn from_kw() -> Seq<char> {
    seq!['f', 'r', 'o', 'm']
}

/// The module names that the words `ws` import, in order, duplicates kept.
/// `import m` names `m`; `from m import x` names `m`. A `from` takes the three
/// words after it, whether or not they match.
pub open spec fn imports(ws: Seq<Seq<char>>) -> Seq<Seq<char>>
    decreases ws.len(),
{
    if ws.len() == 0 {
        seq![]
    } else if ws[0] == import_kw() {
        if ws.len() >= 2 {
            seq![trim(ws[1])] + imports(ws.skip(2))
        } else {
            seq![]
        }
    } else if ws[0] == from_kw() {
        if ws.len() >= 4 && ws[2] == import_kw() {
            seq![trim(ws[1])] + imports(ws.skip(4))
        } else if ws.len() >= 4 {
            imports(ws.skip(4))
        } else {
            seq![]
        }
    } else {
        imports(ws.skip(1))
    }
}

/// `s` with each element after its first occurrence left out.
pub open spec fn dedup(s: Seq<Seq<char>>) -> Seq<Seq<char>>
    decreases s.len(),
{
    if s.len() == 0 {
        seq![]
    } else {
        let d = dedup(s.drop_last());
        if d.contains(s.last()) {
            d
        } else {
            d.push(s.last())
        }
    }
}

/// The modules that source text `s` imports: each once, in the order of first mention.
pub open spec fn scanned(s: Seq<char>) -> Seq<Seq<char>> {
    dedup(imports(words(s)))
}

/// The names of `names` that `installed` does not hold, in order.
pub open spec fn absent(names: Seq<Seq<char>>, installed: Seq<Seq<char>>) -> Seq<Seq<char>> {
    names.filter(|n: Seq<char>| !installed.contains(n))
}

/// Whether `v` holds a string equal to `w`.
pub fn holds(v: &Vec<String>, w: &String) -> (r: bool)
    ensures
        r == views(v@).contains(w@),
{
    let mut i: usize = 0;
    while i < v.len()
        invariant
            i <= v.len(),
            forall|j: int| 0 <= j < i ==> v@[j]@ != w@,
        decreases v.len() - i,
    {
        if v[i] == *w {
            assert(views(v@)[i as int] == w@);
            return true;
        }
        i = i + 1;
    }
    assert forall|j: int| 0 <= j < views(v@).len() implies views(v@)[j] != w@ by {
        assert(views(v@)[j] == v@[j]@);
    }
    false
}

/// The module names that the words `ws` import, in order, duplicates kept.
fn raw_imports(ws: &Vec<String>) -> (r: Vec<String>)
    ensures
        views(r@) == imports(views(ws@)),
{
    let ghost all = views(ws@);
    let import_s = String::from_str("import");
    let from_s = String::from_str("from");
    proof {
        reveal_strlit("import");
        reveal_strlit("from");
        assert(import_s@ =~= import_kw());
        assert(from_s@ =~= from_kw());
    }
    let mut out: Vec<String> = Vec::new();
    let n = ws.len();
    let mut i: usize = 0;
    assert(all.skip(0) =~= all);
    while i < n
        invariant
            n == ws.len(),
            all == views(ws@),
            import_s@ == import_kw(),
            from_s@ == from_kw(),
            i <= n,
            imports(all) == views(out@) + imports(all.skip(i as int)),
        decreases n - i,
    {
        let ghost rest = all.skip(i as int);
        assert(rest[0] == ws@[i as int]@);
        if ws[i] == import_s {
            if 1 < n - i {
                let m = trim_syntax(ws[i + 1].as_str()).to_owned();
                proof {
                    assert(rest[1] == ws@[i + 1]@);
                    assert(rest.skip(2) =~= all.skip(i + 2));
                    assert(views(out@.push(m)) =~= views(out@).push(m@));
                    assert(views(out@).push(m@) + imports(all.skip(i + 2)) =~= views(out@) + (
                    seq![m@] + imports(all.skip(i + 2))));
                }
                out.push(m);
                i = i + 2;
            } else {
                assert(views(out@) + imports(rest) =~= views(out@));
                i = n;
                assert(views(out@) + imports(all.skip(i as int)) =~= views(out@));
            }
        } else if ws[i] == from_s {
            if 3 < n - i {
                proof {
                    assert(rest[1] == ws@[i + 1]@);
                    assert(rest[2] == ws@[i + 2]@);
                    assert(rest.skip(4) =~= all.skip(i + 4));
                }
                if ws[i + 2] == import_s {
                    let m = trim_syntax(ws[i + 1].as_str()).to_owned();
                    proof {
                        assert(views(out@.push(m)) =~= views(out@).push(m@));
                        assert(views(out@).push(m@) + imports(all.skip(i + 4)) =~= views(out@)
                            + (seq![m@] + imports(all.skip(i + 4))));
                    }
                    out.push(m);
                }
                i = i + 4;
            } else {
                assert(views(out@) + imports(rest) =~= views(out@));
                i = n;
                assert(views(out@) + imports(all.skip(i as int)) =~= views(out@));
            }
        } else {
            assert(rest.skip(1) =~= all.skip(i + 1));
            i = i + 1;
        }
    }
    assert(views(out@) + imports(all.skip(n as int)) =~= views(out@));
    out
}

/// Each element of `s` once, in the order of first occurrence.
fn dedup_names(s: &Vec<String>) -> (r: Vec<String>)
    ensures
        views(r@) == dedup(views(s@)),
{
    let ghost all = views(s@);
    let mut out: Vec<String> = Vec::new();
    let mut i: usize = 0;
    while i < s.len()
        invariant
            i <= s.len(),
            all == views(s@),
            views(out@) == dedup(all.take(i as int)),
        decreases s.len() - i,
    {
        let ghost next = all.take(i + 1);
        assert(next.drop_last() =~= all.take(i as int));
        assert(next.last() == s@[i as int]@);
        if !holds(&out, &s[i]) {
            let w = s[i].clone();
            assert(views(out@.push(w)) =~= views(out@).push(w@));
            out.push(w);
        }
        i = i + 1;
    }
    assert(all.take(s.len() as int) =~= all);
    out
}

/// A name list without repeats holds the same names as the list it came from.
pub proof fn lemma_dedup(s: Seq<Seq<char>>)
    ensures
        dedup(s).no_duplicates(),
        dedup(s).to_set() == s.to_set(),
    decreases s.len(),
{
    if s.len() > 0 {
        let p = s.drop_last();
        lemma_dedup(p);
        let d = dedup(p);
        assert(s =~= p.push(s.last()));
        p.lemma_push_to_set_commute(s.last());
        if !d.contains(s.last()) {
            d.lemma_push_to_set_commute(s.last());
            assert forall|a: int, b: int|
                0 <= a < d.push(s.last()).len() && 0 <= b < d.push(s.last()).len() && a
                    != b implies d.push(s.last())[a] != d.push(s.last())[b] by {
                if b == d.len() as int {
                    assert(d.contains(d[a]));
                } else if a == d.len() as int {
                    assert(d.contains(d[b]));
                }
            }
        } else {
            assert(d.to_set() == d.to_set().insert(s.last())) by {
                assert(d.to_set().contains(s.last()));
                assert(d.to_set() =~= d.to_set().insert(s.last()));
            }
        }
    }
}

/// The modules that `input` imports, each once, in the order of first mention.
/// A word `import` followed by a word names that word; a word `from`, a word,
/// `import` and one more word name the word after `from`. Punctuation
/// `; ' " , .` is cut from both ends of each name.
pub fn rip_deps(input: &str) -> (r: Vec<String>)
    ensures
        views(r@) == scanned(input@),
        views(r@).no_duplicates(),
        views(r@).to_set() == imports(words(input@)).to_set(),
{
    let ws = split_words(input);
    let raw = raw_imports(&ws);
    let r = dedup_names(&raw);
    proof {
        lemma_dedup(imports(words(input@)));
    }
    r
}

/// The names of `names` for which `installed` holds no equal name, in order.
pub fn missing(names: &Vec<String>, installed: &Vec<String>) -> (r: Vec<String>)
    ensures
        views(r@) == absent(views(names@), views(installed@)),
{
    let ghost all = views(names@);
    let ghost have = views(installed@);
    let ghost pred = |n: Seq<char>| !have.contains(n);
    let mut out: Vec<String> = Vec::new();
    let mut i: usize = 0;
    while i < names.len()
        invariant
            i <= names.len(),
            all == views(names@),
            have == views(installed@),
            pred == (|n: Seq<char>| !have.contains(n)),
            views(out@) == all.take(i as int).filter(pred),
        decreases names.len() - i,
    {
        let ghost prev = all.take(i as int);
        assert(all.take(i + 1) =~= prev.push(all[i as int]));
        proof {
            prev.lemma_filter_push(all[i as int], pred);
        }
        assert(all[i as int] == names@[i as int]@);
        if !holds(installed, &names[i]) {
            let w = names[i].clone();
            assert(views(out@.push(w)) =~= views(out@).push(w@));
            out.push(w);
        }
        i = i + 1;
    }
    assert(all.take(names.len() as int) =~= all);
    out
}

/// Words without `import` name no module.
proof fn lemma_imports_need_keyword(ws: Seq<Seq<char>>)
    requires
        !ws.contains(import_kw()),
    ensures
        imports(ws) == Seq::<Seq<char>>::empty(),
    decreases ws.len(),
{
    if ws.len() > 0 {
        if ws[0] == import_kw() {
            assert(ws.contains(ws[0]));
        } else if ws[0] == from_kw() {
            if ws.len() >= 4 {
                if ws[2] == import_kw() {
                    assert(ws.contains(ws[2]));
                }
                assert forall|k: int| 0 <= k < ws.skip(4).len() implies ws.skip(4)[k]
                    != import_kw() by {
                    assert(ws.contains(ws[k + 4]));
                }
                lemma_imports_need_keyword(ws.skip(4));
            }
        } else {
            assert forall|k: int| 0 <= k < ws.skip(1).len() implies ws.skip(1)[k]
                != import_kw() by {
                assert(ws.contains(ws[k + 1]));
            }
            lemma_imports_need_keyword(ws.skip(1));
        }
    }
}

/// Source text in which no word is `import` imports nothing: the scan is empty.
pub proof fn lemma_scan_without_imports(code: Seq<char>)
    requires
        !words(code).contains(import_kw()),
    ensures
        scanned(code) == Seq::<Seq<char>>::empty(),
{
    lemma_imports_need_keyword(words(code));
    assert(dedup(Seq::<Seq<char>>::empty()) == Seq::<Seq<char>>::empty());
}

/// Names that `installed` all holds leave nothing absent.
proof fn lemma_absent_empty(names: Seq<Seq<char>>, installed: Seq<Seq<char>>)
    requires
        forall|i: int| 0 <= i < names.len() ==> installed.contains(#[trigger] names[i]),
    ensures
        absent(names, installed) == Seq::<Seq<char>>::empty(),
    decreases names.len(),
{
    if names.len() > 0 {
        let p = names.drop_last();
        assert forall|i: int| 0 <= i < p.len() implies installed.contains(#[trigger] p[i]) by {
            assert(p[i] == names[i]);
        }
        lemma_absent_empty(p, installed);
        assert(names =~= p.push(names.last()));
        p.lemma_filter_push(names.last(), |n: Seq<char>| !installed.contains(n));
    } else {
        assert(absent(names, installed) =~= Seq::<Seq<char>>::empty());
    }
}

/// Once a package directory holds a directory for each module that source
/// text imports, nothing it imports is missing.
pub proof fn lemma_nothing_missing_once_installed(code: Seq<char>, installed: Seq<Seq<char>>)
    requires
        forall|n: Seq<char>| scanned(code).contains(n) ==> installed.contains(n),
    ensures
        absent(scanned(code), installed) == Seq::<Seq<char>>::empty(),
{
    let s = scanned(code);
    assert forall|i: int| 0 <= i < s.len() implies installed.contains(#[trigger] s[i]) by {
        assert(s.contains(s[i]));
    }
    lemma_absent_empty(s, installed);
}

} // verus!
