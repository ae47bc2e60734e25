//! Host-normalization helpers: network-locus extraction for URL-like records
//! and assembly of extension lists into one regex disjunction.
use vstd::prelude::*;
use vstd::string::StrSliceExecFns;
use vstd::string::StringExecFns;

use vstd::utf8::is_ascii_chars;

use crate::text::contains_sub;
use crate::text::sub_at;
use crate::text::find_sub;
use crate::text::find_sub_str;
use crate::text::lemma_find_sub;
use crate::text::skip_chars;
use crate::text::take_chars;
use crate::trusted::escaped;
use crate::trusted::idna_host;
use crate::trusted::regex_escape;
use crate::trusted::to_ascii_host;
use crate::trusted::url_netloc_path;
use crate::trusted::url_parts_spec;

verus! {

/// `s` cut short at the first occurrence of `pat`, if there is one.
pub open spec fn truncate_at(s: Seq<char>, pat: Seq<char>) -> Seq<char> {
    if contains_sub(s, pat) {
        s.take(find_sub(s, pat))
    } else {
        s
    }
}

/// The network locus of a URL-like record: the authority when the parse
/// finds one, else a non-empty path, else the record itself; then cut at the
/// first `//` and at the first `/`.
pub open spec fn netloc_spec(s: Seq<char>) -> Seq<char> {
    let parts = url_parts_spec(s);
    let base = if parts.0.len() == 0 && parts.1.len() > 0 {
        parts.1
    } else if parts.0.len() > 0 {
        parts.0
    } else {
        s
    };
    truncate_at(truncate_at(base, seq!['/', '/']), seq!['/'])
}

/// `s` cut short at the first occurrence of `pat`, as a fresh `String`.
pub fn truncate_at_str(s: &str, pat: &str) -> (r: String)
    ensures
        r@ == truncate_at(s@, pat@),
{
    match find_sub_str(s, pat) {
        Some(i) => {
            proof {
                crate::text::lemma_find_sub(s@, pat@);
            }
            String::from_str(take_chars(s, i))
        },
        None => String::from_str(s),
    }
}

/// Extracts the bare `host[:port]` of a URL-like record; a record that is no
/// URL comes back unchanged.
pub fn extract_netloc(data: &String) -> (r: String)
    ensures
        r@ == netloc_spec(data@),
{
    let parts = url_netloc_path(data.as_str());
    let base: String = if parts.0.as_str().is_empty() && !parts.1.as_str().is_empty() {
        parts.1
    } else if !parts.0.as_str().is_empty() {
        parts.0
    } else {
        data.clone()
    };
    proof {
        reveal_strlit("//");
        reveal_strlit("/");
        assert("//"@ =~= seq!['/', '/']);
        assert("/"@ =~= seq!['/']);
    }
    let cut = truncate_at_str(base.as_str(), "//");
    truncate_at_str(cut.as_str(), "/")
}

/// One label's IDNA treatment: an all-ASCII label is kept as it stands,
/// case included; any other label becomes its IDNA ASCII form, or stays
/// unchanged when the encoder rejects it.
pub open spec fn idna_label(l: Seq<char>) -> Seq<char> {
    if is_ascii_chars(l) {
        l
    } else {
        match idna_host(l) {
            Some(a) => a,
            None => l,
        }
    }
}

/// `idna_label` applied to every dot-separated label of `s`.
pub open spec fn idna_labels(s: Seq<char>) -> Seq<char>
    decreases s.len(),
    via idna_labels_decreases
{
    if contains_sub(s, seq!['.']) {
        let i = find_sub(s, seq!['.']);
        idna_label(s.take(i)) + seq!['.'] + idna_labels(s.skip(i + 1))
    } else {
        idna_label(s)
    }
}

#[via_fn]
proof fn idna_labels_decreases(s: Seq<char>) {
    if contains_sub(s, seq!['.']) {
        lemma_find_sub(s, seq!['.']);
        assert(sub_at(s, seq!['.'], find_sub(s, seq!['.'])));
    }
}

fn idna_label_str(l: &str) -> (r: String)
    ensures
        r@ == idna_label(l@),
{
    if l.is_ascii() {
        String::from_str(l)
    } else {
        match to_ascii_host(l) {
            Some(a) => a,
            None => String::from_str(l),
        }
    }
}

fn idna_str(s: &str) -> (r: String)
    ensures
        r@ == idna_labels(s@),
    decreases s@.len(),
{
    proof {
        reveal_strlit(".");
        assert("."@ =~= seq!['.']);
    }
    match find_sub_str(s, ".") {
        Some(i) => {
            let len = s.unicode_len();
            proof {
                lemma_find_sub(s@, "."@);
                assert(sub_at(s@, seq!['.'], i as int));
                assert(i + 1 <= len);
            }
            let label = take_chars(s, i);
            let rest = skip_chars(s, i + 1);
            let mut out = idna_label_str(label);
            out.append(".");
            let tail = idna_str(rest);
            out.append(tail.as_str());
            out
        },
        None => idna_label_str(s),
    }
}

/// Converts each dot-separated label of `s` that holds non-ASCII to its IDNA
/// ASCII form; ASCII labels keep their case.
pub fn idna(s: &String) -> (r: String)
    ensures
        r@ == idna_labels(s@),
{
    idna_str(s.as_str())
}

/// One escaped extension, wrapped as a regex group that matches `.<ext>`.
pub open spec fn ext_group(e: Seq<char>) -> Seq<char> {
    "((?:\\.(?:"@ + escaped(e) + ")))"@
}

/// The extension groups joined with `|`.
pub open spec fn regex_string_of(exts: Seq<Seq<char>>) -> Seq<char>
    decreases exts.len(),
{
    if exts.len() == 0 {
        Seq::<char>::empty()
    } else if exts.len() == 1 {
        ext_group(exts[0])
    } else {
        regex_string_of(exts.drop_last()) + seq!['|'] + ext_group(exts.last())
    }
}

/// Joins the escaped `extensions` into one regex disjunction where each
/// branch matches a dotted extension.
pub fn to_regex_string(extensions: &Vec<String>) -> (r: String)
    ensures
        r@ == regex_string_of(extensions.deep_view()),
{
    proof {
        reveal_strlit("|");
        assert("|"@ =~= seq!['|']);
    }
    let mut result = String::new();
    let mut i: usize = 0;
    while i < extensions.len()
        invariant
            i <= extensions.len(),
            result@ == regex_string_of(extensions.deep_view().take(i as int)),
            "|"@ =~= seq!['|'],
        decreases extensions.len() - i,
    {
        if i > 0 {
            result.append("|");
        }
        result.append("((?:\\.(?:");
        let esc = regex_escape(extensions[i].as_str());
        result.append(esc.as_str());
        result.append(")))");
        proof {
            let pre = extensions.deep_view().take(i as int);
            let cur = extensions.deep_view().take(i + 1);
            assert(cur.drop_last() =~= pre);
            assert(cur.last() == extensions.deep_view()[i as int]);
            assert(extensions.deep_view()[i as int] == extensions[i as int]@);
            if i == 0 {
                assert(cur.len() == 1);
                assert(result@ =~= ext_group(cur[0]));
            } else {
                assert(result@ =~= regex_string_of(pre) + seq!['|'] + ext_group(cur.last()));
            }
        }
        i += 1;
    }
    proof {
        assert(extensions.deep_view().take(extensions.len() as int) =~= extensions.deep_view());
    }
    result
}

} // verus!
