use vstd::prelude::*;
use vstd::string::StringExecFns;
use vstd::string::StrSliceExecFns;
use rand::seq::SliceRandom;

verus! {

/// The views of a sequence of strings.
pub open spec fn views(v: Seq<String>) -> Seq<Seq<char>> {
    v.map_values(|s: String| s@)
}

/// Words separated by single hyphens.
pub open spec fn hyphen_join(ws: Seq<Seq<char>>) -> Seq<char>
    decreases ws.len(),
{
    if ws.len() == 0 {
        Seq::empty()
    } else if ws.len() == 1 {
        ws[0]
    } else {
        hyphen_join(ws.drop_last()) + seq!['-'] + ws.last()
    }
}

/// Joins `words` with `-` between each two of them.
pub fn join_words(words: &Vec<String>) -> (r: String)
    ensures
        r@ == hyphen_join(views(words@)),
{
    let mut out = String::new();
    let n = words.len();
    let mut i: usize = 0;
    proof {
        reveal_strlit("-");
        assert(views(words@).take(0) =~= Seq::<Seq<char>>::empty());
    }
    while i < n
        invariant
            n == words@.len(),
            i <= n,
            out@ == hyphen_join(views(words@).take(i as int)),
        decreases n - i,
    {
        let ghost prev = views(words@).take(i as int);
        let ghost next = views(words@).take(i + 1);
        assert(next.drop_last() =~= prev);
        if i > 0 {
            out.append("-");
        }
        out.append(words[i].as_str());
        proof {
            reveal_strlit("-");
            assert("-"@ =~= seq!['-']);
            assert(next.last() == words@[i as int]@);
            if i == 0 {
                assert(out@ =~= next[0]);
            } else {
                assert(out@ =~= hyphen_join(prev) + seq!['-'] + next.last());
            }
        }
        i = i + 1;
    }
    assert(views(words@).take(n as int) =~= views(words@));
    out
}

/// A single word: one or more lowercase ASCII letters, safe in a path segment.
pub open spec fn is_word(w: Seq<char>) -> bool {
    &&& w.len() > 0
    &&& forall|i: int| 0 <= i < w.len() ==> 'a' <= #[trigger] w[i] <= 'z'
}

/// Distinct words, each of them valid.
pub open spec fn valid_wordlist(ws: Seq<Seq<char>>) -> bool {
    &&& ws.no_duplicates()
    &&& forall|i: int| 0 <= i < ws.len() ==> is_word(#[trigger] ws[i])
}

/// `id` is `len` distinct words of `ws`, joined by hyphens.
pub open spec fn is_identifier_from(id: Seq<char>, ws: Seq<Seq<char>>, len: nat) -> bool {
    exists|picked: Seq<Seq<char>>|
        {
            &&& picked.len() == len
            &&& picked.no_duplicates()
            &&& forall|k: int| 0 <= k < picked.len() ==> ws.contains(#[trigger] picked[k])
            &&& id == hyphen_join(picked)
        }
}

/// Why a word list was refused.
#[derive(Debug, Clone, Copy, PartialEq, Eq, Structural)]
pub enum ConfigurationError {
    /// The word at this position is empty or holds a character other than `a` to `z`.
    InvalidWord(usize),
    /// The word at this position already occurs earlier in the list.
    DuplicateWord(usize),
}

/// A key length of zero, or one larger than the word list.
#[derive(Debug, Clone, Copy, PartialEq, Eq, Structural)]
pub struct IdentifierGenerationError {
    pub requested: usize,
    pub available: usize,
}

/// A fixed, ordered list of distinct lowercase words.
pub struct Wordlist {
    words: Vec<String>,
}

impl View for Wordlist {
    type V = Seq<Seq<char>>;

    closed spec fn view(&self) -> Seq<Seq<char>> {
        views(self.words@)
    }
}

/// Text that can be a key: one or more characters, each a lowercase ASCII
/// letter or a hyphen. Such a key is safe as a file name and a path segment.
pub open spec fn is_safe_key(k: Seq<char>) -> bool {
    &&& k.len() > 0
    &&& forall|i: int| 0 <= i < k.len() ==> ('a' <= #[trigger] k[i] <= 'z' || k[i] == '-')
}

/// Whether `key` may name a stored blob; any identifier from a word list is such a key.
pub fn safe_key(key: &str) -> (r: bool)
    ensures
        r == is_safe_key(key@),
{
    let n = key.unicode_len();
    if n == 0 {
        return false;
    }
    let mut i: usize = 0;
    while i < n
        invariant
            n == key@.len(),
            i <= n,
            forall|j: int| 0 <= j < i ==> ('a' <= #[trigger] key@[j] <= 'z' || key@[j] == '-'),
        decreases n - i,
    {
        let c = key.get_char(i);
        if !(('a' <= c && c <= 'z') || c == '-') {
            return false;
        }
        i = i + 1;
    }
    true
}

proof fn lemma_join_is_safe(ws: Seq<Seq<char>>)
    requires
        ws.len() > 0,
        forall|i: int| 0 <= i < ws.len() ==> is_word(#[trigger] ws[i]),
    ensures
        is_safe_key(hyphen_join(ws)),
    decreases ws.len(),
{
    if ws.len() > 1 {
        let init = ws.drop_last();
        assert forall|i: int| 0 <= i < init.len() implies is_word(#[trigger] init[i]) by {
            assert(init[i] == ws[i]);
        }
        lemma_join_is_safe(init);
        let j = hyphen_join(init) + seq!['-'] + ws.last();
        assert(is_word(ws[ws.len() - 1]));
        assert forall|k: int| 0 <= k < j.len() implies ('a' <= #[trigger] j[k] <= 'z' || j[k] == '-') by {
            let a = hyphen_join(init).len() as int;
            if k < a {
                assert(j[k] == hyphen_join(init)[k]);
            } else if k > a {
                assert(j[k] == ws.last()[k - a - 1]);
            }
        }
    } else {
        assert(is_word(ws[0]));
    }
}

/// An identifier of one or more words from a valid list is a safe key: it can
/// stand as a file name and a path segment without escaping.
pub proof fn lemma_identifier_is_safe_key(id: Seq<char>, ws: Seq<Seq<char>>, len: nat)
    requires
        valid_wordlist(ws),
        len > 0,
        is_identifier_from(id, ws, len),
    ensures
        is_safe_key(id),
{
    let picked = choose|picked: Seq<Seq<char>>|
        {
            &&& picked.len() == len
            &&& picked.no_duplicates()
            &&& forall|k: int| 0 <= k < picked.len() ==> ws.contains(#[trigger] picked[k])
            &&& id == hyphen_join(picked)
        };
    assert forall|i: int| 0 <= i < picked.len() implies is_word(#[trigger] picked[i]) by {
        assert(ws.contains(picked[i]));
        let j = choose|j: int| 0 <= j < ws.len() && ws[j] == picked[i];
        assert(is_word(ws[j]));
    }
    lemma_join_is_safe(picked);
}

/// The number of hyphens in `s`.
pub open spec fn hyphen_count(s: Seq<char>) -> nat
    decreases s.len(),
{
    if s.len() == 0 {
        0
    } else {
        hyphen_count(s.drop_last()) + if s.last() == '-' { 1nat } else { 0nat }
    }
}

proof fn lemma_hyphen_count_append(a: Seq<char>, b: Seq<char>)
    ensures
        hyphen_count(a + b) == hyphen_count(a) + hyphen_count(b),
    decreases b.len(),
{
    if b.len() == 0 {
        assert(a + b =~= a);
    } else {
        assert((a + b).drop_last() =~= a + b.drop_last());
        lemma_hyphen_count_append(a, b.drop_last());
    }
}

proof fn lemma_word_has_no_hyphen(w: Seq<char>)
    requires
        forall|i: int| 0 <= i < w.len() ==> 'a' <= #[trigger] w[i] <= 'z',
    ensures
        hyphen_count(w) == 0,
    decreases w.len(),
{
    if w.len() > 0 {
        lemma_word_has_no_hyphen(w.drop_last());
    }
}

proof fn lemma_join_hyphens(ws: Seq<Seq<char>>)
    requires
        ws.len() > 0,
        forall|i: int| 0 <= i < ws.len() ==> is_word(#[trigger] ws[i]),
    ensures
        hyphen_count(hyphen_join(ws)) + 1 == ws.len(),
    decreases ws.len(),
{
    assert(is_word(ws[ws.len() - 1]));
    lemma_word_has_no_hyphen(ws.last());
    if ws.len() > 1 {
        let init = ws.drop_last();
        assert forall|i: int| 0 <= i < init.len() implies is_word(#[trigger] init[i]) by {
            assert(init[i] == ws[i]);
        }
        lemma_join_hyphens(init);
        lemma_hyphen_count_append(hyphen_join(init), seq!['-']);
        lemma_hyphen_count_append(hyphen_join(init) + seq!['-'], ws.last());
        let h = seq!['-'];
        assert(h.last() == '-');
        assert(h.drop_last() =~= Seq::<char>::empty());
        assert(hyphen_count(h.drop_last()) == 0);
        assert(hyphen_count(h) == 1);
    } else {
        assert(hyphen_join(ws) == ws.last());
    }
}

/// An identifier of one or more words from a valid list holds exactly one
/// hyphen fewer than it has words: cut at its hyphens, it gives back as many
/// words as were asked for.
pub proof fn lemma_identifier_word_count(id: Seq<char>, ws: Seq<Seq<char>>, len: nat)
    requires
        valid_wordlist(ws),
        len > 0,
        is_identifier_from(id, ws, len),
    ensures
        hyphen_count(id) + 1 == len,
{
    let picked = choose|picked: Seq<Seq<char>>|
        {
            &&& picked.len() == len
            &&& picked.no_duplicates()
            &&& forall|k: int| 0 <= k < picked.len() ==> ws.contains(#[trigger] picked[k])
            &&& id == hyphen_join(picked)
        };
    assert forall|i: int| 0 <= i < picked.len() implies is_word(#[trigger] picked[i]) by {
        assert(ws.contains(picked[i]));
        let j = choose|j: int| 0 <= j < ws.len() && ws[j] == picked[i];
        assert(is_word(ws[j]));
    }
    lemma_join_hyphens(picked);
}

/// Checks that every character of `w` is a lowercase ASCII letter and that there is one.
fn check_word(w: &String) -> (r: bool)
    ensures
        r == is_word(w@),
{
    let s = w.as_str();
    let n = s.unicode_len();
    if n == 0 {
        return false;
    }
    let mut i: usize = 0;
    while i < n
        invariant
            n == s@.len(),
            s@ == w@,
            i <= n,
            forall|j: int| 0 <= j < i ==> 'a' <= #[trigger] w@[j] <= 'z',
        decreases n - i,
    {
        let c = s.get_char(i);
        if !('a' <= c && c <= 'z') {
            return false;
        }
        i = i + 1;
    }
    true
}

impl Wordlist {
    #[verifier::type_invariant]
    spec fn inv(&self) -> bool {
        valid_wordlist(views(self.words@))
    }

    /// Takes the words in order; refuses an invalid or repeated word.
    pub fn new(words: Vec<String>) -> (r: Result<Wordlist, ConfigurationError>)
        ensures
            r is Ok <==> valid_wordlist(views(words@)),
            r matches Ok(w) ==> w@ == views(words@),
            r matches Err(ConfigurationError::InvalidWord(i)) ==> i < words@.len() && !is_word(words@[i as int]@),
            r matches Err(ConfigurationError::DuplicateWord(i)) ==> i < words@.len() && exists|j: int| 0 <= j < i && words@[j]@ == words@[i as int]@,
    {
        let n = words.len();
        let mut i: usize = 0;
        while i < n
            invariant
                n == words@.len(),
                i <= n,
                valid_wordlist(views(words@).take(i as int)),
            decreases n - i,
        {
            if !check_word(&words[i]) {
                proof {
                    assert(views(words@)[i as int] == words@[i as int]@);
                    assert(!valid_wordlist(views(words@)));
                }
                return Err(ConfigurationError::InvalidWord(i));
            }
            let mut j: usize = 0;
            while j < i
                invariant
                    n == words@.len(),
                    j <= i < n,
                    forall|k: int| 0 <= k < j ==> words@[k]@ != words@[i as int]@,
                decreases i - j,
            {
                if words[j] == words[i] {
                    proof {
                        let vs = views(words@);
                        assert(vs[j as int] == vs[i as int]);
                        assert(!valid_wordlist(vs));
                    }
                    return Err(ConfigurationError::DuplicateWord(i));
                }
                j = j + 1;
            }
            proof {
                let vs = views(words@);
                let t = vs.take(i + 1);
                assert forall|a: int, b: int| 0 <= a < t.len() && 0 <= b < t.len() && a != b implies t[a] != t[b] by {
                    if a < i && b < i {
                        assert(vs.take(i as int)[a] == t[a] && vs.take(i as int)[b] == t[b]);
                    } else if a == i {
                        assert(words@[b]@ != words@[i as int]@);
                    } else {
                        assert(words@[a]@ != words@[i as int]@);
                    }
                }
                assert forall|a: int| 0 <= a < t.len() implies is_word(#[trigger] t[a]) by {
                    if a < i {
                        assert(vs.take(i as int)[a] == t[a]);
                    }
                }
            }
            i = i + 1;
        }
        assert(views(words@).take(n as int) =~= views(words@));
        Ok(Wordlist { words })
    }

    /// The number of words; the words are distinct and each is valid.
    pub fn len(&self) -> (r: usize)
        ensures
            r == self@.len(),
            valid_wordlist(self@),
    {
        proof {
            use_type_invariant(self);
        }
        self.words.len()
    }
}

/// Each element of `r` is the element at some position of `words`, and no
/// position is used twice.
pub open spec fn drawn_from(r: Seq<String>, words: Seq<String>) -> bool {
    exists|idx: Seq<int>|
        {
            &&& idx.len() == r.len()
            &&& idx.no_duplicates()
            &&& forall|k: int|
                0 <= k < idx.len() ==> 0 <= #[trigger] idx[k] < words.len() && r[k]@ == words[idx[k]]@
        }
}

/// Relies on rand's `SliceRandom::choose_multiple` with the thread-local generator:
/// `min(amount, len)` elements, taken from distinct positions of the slice.
#[verifier::external_body]
fn choose_multiple(words: &Vec<String>, amount: usize) -> (r: Vec<String>)
    ensures
        r@.len() == vstd::math::min(amount as int, words@.len() as int),
        drawn_from(r@, words@),
{
    words.as_slice().choose_multiple(&mut rand::thread_rng(), amount).cloned().collect()
}

/// A fresh identifier: `len` distinct words of the list, chosen at random and
/// joined with hyphens. A length of zero, or one larger than the list, is refused.
pub fn mnemonic(words: &Wordlist, len: usize) -> (r: Result<String, IdentifierGenerationError>)
    ensures
        r is Err <==> len == 0 || len > words@.len(),
        r matches Err(e) ==> e.requested == len && e.available == words@.len(),
        r matches Ok(id) ==> is_identifier_from(id@, words@, len as nat) && is_safe_key(id@),
{
    proof {
        use_type_invariant(words);
    }
    let available = words.words.len();
    if len == 0 || len > available {
        return Err(IdentifierGenerationError { requested: len, available });
    }
    let picked = choose_multiple(&words.words, len);
    let id = join_words(&picked);
    proof {
        let ws = words@;
        let p = views(picked@);
        let idx = choose|idx: Seq<int>|
            {
                &&& idx.len() == picked@.len()
                &&& idx.no_duplicates()
                &&& forall|k: int|
                    0 <= k < idx.len() ==> 0 <= #[trigger] idx[k] < words.words@.len() && picked@[k]@
                        == words.words@[idx[k]]@
            };
        assert forall|k: int| 0 <= k < p.len() implies ws.contains(#[trigger] p[k]) by {
            assert(idx[k] >= 0);
            assert(ws[idx[k]] == p[k]);
        }
        assert forall|a: int, b: int| 0 <= a < p.len() && 0 <= b < p.len() && a != b implies p[a] != p[b] by {
            assert(idx[a] != idx[b]);
            assert(ws[idx[a]] == p[a]);
            assert(ws[idx[b]] == p[b]);
        }
        assert(p.no_duplicates());
        assert(is_identifier_from(id@, ws, len as nat));
        lemma_identifier_is_safe_key(id@, ws, len as nat);
    }
    Ok(id)
}

} // verus!
