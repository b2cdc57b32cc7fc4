use vstd::prelude::*;
use vstd::string::StringExecFns;
use vstd::string::StrSliceExecFns;

verus! {

/// The first line of the usage text and the command that precedes the address.
pub open spec fn banner_head() -> Seq<char> {
    "meow - paste bin\nusage: curl --data-binary @<file> "@
}

/// The usage text served at the root: a title line and an upload command
/// naming the service's base address.
pub fn index(base_url: &str) -> (r: String)
    ensures
        r@ == banner_head() + base_url@ + "\n"@,
{
    let mut out = String::from_str("meow - paste bin\nusage: curl --data-binary @<file> ");
    out.append(base_url);
    out.append("\n");
    out
}

/// `s` without the slashes at its end.
pub open spec fn trim_trailing_slashes(s: Seq<char>) -> Seq<char>
    decreases s.len(),
{
    if s.len() > 0 && s.last() == '/' {
        trim_trailing_slashes(s.drop_last())
    } else {
        s
    }
}

/// The address of the blob stored under `key`: the base address, its trailing
/// slashes trimmed, then `/` and the key.
pub open spec fn retrieval_url(base: Seq<char>, key: Seq<char>) -> Seq<char> {
    trim_trailing_slashes(base) + seq!['/'] + key
}

/// The body sent after an upload stored under `key`: the address of the blob
/// under `base_url`, and a newline.
pub fn paste_response(base_url: &str, key: &str) -> (r: String)
    ensures
        r@ == retrieval_url(base_url@, key@) + seq!['\n'],
{
    let n = base_url.unicode_len();
    let mut end: usize = n;
    assert(base_url@.take(n as int) =~= base_url@);
    while end > 0 && base_url.get_char(end - 1) == '/'
        invariant
            n == base_url@.len(),
            end <= n,
            trim_trailing_slashes(base_url@.take(end as int)) == trim_trailing_slashes(base_url@),
        decreases end,
    {
        proof {
            assert(base_url@.take(end as int).drop_last() =~= base_url@.take(end - 1));
        }
        end = end - 1;
    }
    proof {
        assert(base_url@.take(end as int) =~= base_url@.subrange(0, end as int));
        assert(trim_trailing_slashes(base_url@.take(end as int)) == base_url@.take(end as int));
    }
    let head = base_url.substring_char(0, end);
    let mut out = String::from_str(head);
    out.append("/");
    out.append(key);
    out.append("\n");
    proof {
        reveal_strlit("/");
        reveal_strlit("\n");
        assert("/"@ =~= seq!['/']);
        assert("\n"@ =~= seq!['\n']);
    }
    out
}

} // verus!
