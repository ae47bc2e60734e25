//! A whitelisting engine for host lists. Rule lines are compiled into a
//! mutable multi-strategy index, the `Ruler`, which answers for each record
//! whether some active rule matches it: exact hosts and their `www.`
//! complements, dot-anchored suffix families, expansions of a label over the
//! known DNS extensions, and a regex disjunction.
use vstd::prelude::*;
use vstd::string::StrSliceExecFns;
use vstd::string::StringExecFns;

pub mod buckets;
pub mod data;
pub mod laws;
pub mod text;
pub mod trusted;
pub mod utils;

use crate::buckets::Bucket;
use crate::buckets::bucket_contains;
use crate::buckets::bucket_insert;
use crate::buckets::bucket_keys;
use crate::buckets::bucket_members;
use crate::buckets::bucket_remove;
use crate::buckets::bucket_suffix_match;
use crate::buckets::members_distinct;
use crate::buckets::bucket_set;
use crate::buckets::buckets_wf;
use crate::text::concat_str;
use crate::text::count_ch;
use crate::text::count_char;
use crate::text::marker_match;
use crate::text::marker_match_str;
use crate::text::prefix_of;
use crate::text::trim_spec;
use crate::text::trim_str;
use crate::text::www_dot;
use crate::text::contains_sub;
use crate::text::find_sub;
use crate::text::find_sub_str;
use crate::text::suffix_of;
use crate::text::first_n;
use crate::text::last_n;
use crate::text::reduce_spec;
use crate::text::skip_chars;
use crate::text::starts_with_str;
use crate::text::str_eq;
use crate::text::take_chars;
use crate::trusted::idna_host;
use crate::trusted::regex_compiles;
use crate::trusted::regex_is_match;
use crate::trusted::regex_match;
use crate::trusted::regex_str;
use crate::trusted::to_ascii_host;
use crate::trusted::regex_new;
use crate::trusted::regex_source;
use crate::utils::extract_netloc;
use crate::utils::netloc_spec;
use crate::utils::truncate_at;
use crate::utils::truncate_at_str;

verus! {

/// Per-Ruler policy: the complement flag fixed at construction, and the
/// cached list of DNS extensions that expansion rules run over.
#[derive(Debug)]
pub struct RulerSettings {
    handle_complement: bool,
    extensions: Vec<String>,
}

/// Paths of files the caller downloaded for this Ruler and wants removed on
/// teardown.
#[derive(Debug)]
pub struct RulerTmps {
    downloaded_files: Vec<String>,
}

/// The compiled rule set: three bucketed string sets, one regex disjunction
/// kept in sync with its compiled form, and the settings.
#[derive(Debug)]
pub struct Ruler {
    strict: Vec<Bucket>,
    ends: Vec<Bucket>,
    present: Vec<Bucket>,
    regex: String,
    compiled_regex: fancy_regex::Regex,
    settings: RulerSettings,
    tmps: RulerTmps,
}

/// The mathematical content of a Ruler: what each index holds, the regex
/// source, and the policy data.
#[verifier::ext_equal]
pub ghost struct RulerView {
    pub strict: Set<Seq<char>>,
    pub ends: Set<Seq<char>>,
    pub present: Set<Seq<char>>,
    pub regex: Seq<char>,
    pub complement: bool,
    pub extensions: Seq<Seq<char>>,
}

/// Key of an exact or expansion entry: the first four characters of its
/// reduced form.
pub open spec fn strict_keyf() -> spec_fn(Seq<char>) -> Seq<char> {
    |s: Seq<char>| first_n(reduce_spec(s), 4)
}

/// Key of a suffix entry: the last three characters of its reduced form.
pub open spec fn ends_keyf() -> spec_fn(Seq<char>) -> Seq<char> {
    |s: Seq<char>| last_n(reduce_spec(s), 3)
}

impl View for Ruler {
    type V = RulerView;

    closed spec fn view(&self) -> RulerView {
        RulerView {
            strict: bucket_set(self.strict@),
            ends: bucket_set(self.ends@),
            present: bucket_set(self.present@),
            regex: self.regex@,
            complement: self.settings.handle_complement,
            extensions: self.settings.extensions.deep_view(),
        }
    }
}

/// The view of a freshly created Ruler.
pub open spec fn empty_view(handle_complement: bool) -> RulerView {
    RulerView {
        strict: Set::<Seq<char>>::empty(),
        ends: Set::<Seq<char>>::empty(),
        present: Set::<Seq<char>>::empty(),
        regex: Seq::<char>::empty(),
        complement: handle_complement,
        extensions: Seq::<Seq<char>>::empty(),
    }
}

/// Insert or remove, by direction.
pub open spec fn upd(s: Set<Seq<char>>, x: Seq<char>, add: bool) -> Set<Seq<char>> {
    if add {
        s.insert(x)
    } else {
        s.remove(x)
    }
}

impl Ruler {
    /// Every bucket obeys its key function, each bucket holds a set, and the
    /// compiled regex is the compiled form of the regex string.
    pub closed spec fn wf(&self) -> bool {
        &&& buckets_wf(self.strict@, strict_keyf())
        &&& buckets_wf(self.present@, strict_keyf())
        &&& buckets_wf(self.ends@, ends_keyf())
        &&& regex_compiles(self.regex@)
        &&& regex_source(self.compiled_regex) == self.regex@
    }

    /// Creates an empty Ruler with the complement policy fixed.
    pub fn new(handle_complement: bool) -> (r: Ruler)
        ensures
            r.wf(),
            r@ == empty_view(handle_complement),
    {
        proof {
            reveal_strlit("");
        }
        let compiled = match regex_new("") {
            Some(re) => re,
            None => {
                proof {
                    assert(""@.len() == 0);
                    assert(false);
                }
                unreached()
            },
        };
        let r = Ruler {
            strict: Vec::new(),
            ends: Vec::new(),
            present: Vec::new(),
            regex: String::new(),
            compiled_regex: compiled,
            settings: RulerSettings { handle_complement, extensions: Vec::new() },
            tmps: RulerTmps { downloaded_files: Vec::new() },
        };
        proof {
            assert(""@ =~= Seq::<char>::empty());
            assert(bucket_set(r.strict@) =~= Set::<Seq<char>>::empty());
            assert(bucket_set(r.ends@) =~= Set::<Seq<char>>::empty());
            assert(bucket_set(r.present@) =~= Set::<Seq<char>>::empty());
            assert(r.settings.extensions.deep_view() =~= Seq::<Seq<char>>::empty());
            assert(r@ =~= empty_view(handle_complement));
        }
        r
    }

    /// Hands the Ruler the extension list that expansion rules run over.
    pub fn set_extensions(&mut self, extensions: Vec<String>)
        requires
            old(self).wf(),
        ensures
            final(self).wf(),
            final(self)@ == (RulerView { extensions: extensions.deep_view(), ..old(self)@ }),
    {
        self.settings.extensions = extensions;
    }

    /// Reconfigures the complement policy; meant for callers that change
    /// course between ingestion passes, never during one.
    pub fn set_handle_complement(&mut self, handle_complement: bool)
        requires
            old(self).wf(),
        ensures
            final(self).wf(),
            final(self)@ == (RulerView { complement: handle_complement, ..old(self)@ }),
    {
        self.settings.handle_complement = handle_complement;
    }

    /// The complement flag the Ruler was created with.
    pub fn handle_complement(&self) -> (r: bool)
        ensures
            r == self@.complement,
    {
        self.settings.handle_complement
    }

    /// Strips one leading `www.` label, if present.
    pub fn reduce(&self, element: &String) -> (r: String)
        ensures
            r@ == reduce_spec(element@),
    {
        proof {
            reveal_strlit("www.");
            assert("www."@ =~= crate::text::www_dot());
        }
        if starts_with_str(element.as_str(), "www.") {
            String::from_str(skip_chars(element.as_str(), 4))
        } else {
            element.clone()
        }
    }

    /// The two bucket keys of a record: its first four and last three
    /// characters.
    pub fn search_keys(&self, record: &String) -> (r: (String, String))
        ensures
            r.0@ == first_n(record@, 4),
            r.1@ == last_n(record@, 3),
    {
        let len = record.as_str().unicode_len();
        let head = if len <= 4 {
            record.clone()
        } else {
            String::from_str(take_chars(record.as_str(), 4))
        };
        let tail = if len <= 3 {
            record.clone()
        } else {
            String::from_str(skip_chars(record.as_str(), len - 3))
        };
        (head, tail)
    }

    /// Files `record` in the exact-host index.
    pub fn push_strict(&mut self, record: &String)
        requires
            old(self).wf(),
        ensures
            final(self).wf(),
            final(self)@ == (RulerView { strict: old(self)@.strict.insert(record@), ..old(
                self,
            )@ }),
    {
        let red = self.reduce(record);
        let (key, _) = self.search_keys(&red);
        bucket_insert(&mut self.strict, key, record, Ghost(strict_keyf()));
    }

    /// Withdraws `record` from the exact-host index.
    pub fn pull_strict(&mut self, record: &String)
        requires
            old(self).wf(),
        ensures
            final(self).wf(),
            final(self)@ == (RulerView { strict: old(self)@.strict.remove(record@), ..old(
                self,
            )@ }),
    {
        let red = self.reduce(record);
        let (key, _) = self.search_keys(&red);
        bucket_remove(&mut self.strict, key, record, Ghost(strict_keyf()));
    }

    /// Files `record` in the expansion index.
    pub fn push_present(&mut self, record: &String)
        requires
            old(self).wf(),
        ensures
            final(self).wf(),
            final(self)@ == (RulerView { present: old(self)@.present.insert(record@), ..old(
                self,
            )@ }),
    {
        let red = self.reduce(record);
        let (key, _) = self.search_keys(&red);
        bucket_insert(&mut self.present, key, record, Ghost(strict_keyf()));
    }

    /// Withdraws `record` from the expansion index.
    pub fn pull_present(&mut self, record: &String)
        requires
            old(self).wf(),
        ensures
            final(self).wf(),
            final(self)@ == (RulerView { present: old(self)@.present.remove(record@), ..old(
                self,
            )@ }),
    {
        let red = self.reduce(record);
        let (key, _) = self.search_keys(&red);
        bucket_remove(&mut self.present, key, record, Ghost(strict_keyf()));
    }

    /// Files `record` in the suffix index.
    pub fn push_ends(&mut self, record: &String)
        requires
            old(self).wf(),
        ensures
            final(self).wf(),
            final(self)@ == (RulerView { ends: old(self)@.ends.insert(record@), ..old(self)@ }),
    {
        let red = self.reduce(record);
        let (_, key) = self.search_keys(&red);
        bucket_insert(&mut self.ends, key, record, Ghost(ends_keyf()));
    }

    /// Withdraws `record` from the suffix index.
    pub fn pull_ends(&mut self, record: &String)
        requires
            old(self).wf(),
        ensures
            final(self).wf(),
            final(self)@ == (RulerView { ends: old(self)@.ends.remove(record@), ..old(self)@ }),
    {
        let red = self.reduce(record);
        let (_, key) = self.search_keys(&red);
        bucket_remove(&mut self.ends, key, record, Ghost(ends_keyf()));
    }
}

/// The regex disjunction after appending `record`.
pub open spec fn push_regex_spec(re: Seq<char>, record: Seq<char>) -> Seq<char> {
    if re.len() == 0 {
        record
    } else {
        re + seq!['|'] + record
    }
}

/// `s` with its first occurrence of `pat` cut out.
pub open spec fn remove_first(s: Seq<char>, pat: Seq<char>) -> Seq<char> {
    s.take(find_sub(s, pat)) + s.skip(find_sub(s, pat) + pat.len())
}

/// The regex disjunction after withdrawing `record`: the first occurrence of
/// `record|`, or else of `|record`, is cut out; a disjunction that is exactly
/// `record` becomes empty; otherwise nothing changes.
pub open spec fn pull_regex_spec(re: Seq<char>, record: Seq<char>) -> Seq<char> {
    let pbar = record + seq!['|'];
    let barp = seq!['|'] + record;
    if contains_sub(re, pbar) {
        remove_first(re, pbar)
    } else if contains_sub(re, barp) {
        remove_first(re, barp)
    } else if re == record {
        Seq::<char>::empty()
    } else {
        re
    }
}

impl Ruler {
    fn commit_regex(&mut self, candidate: String)
        requires
            old(self).wf(),
        ensures
            final(self).wf(),
            regex_compiles(candidate@) ==> final(self)@ == (RulerView {
                regex: candidate@,
                ..old(self)@
            }),
            !regex_compiles(candidate@) ==> final(self)@ == old(self)@,
    {
        match regex_new(candidate.as_str()) {
            Some(re) => {
                self.regex = candidate;
                self.compiled_regex = re;
            },
            None => {},
        }
    }

    /// Appends `record` to the regex disjunction and recompiles; if the new
    /// disjunction does not compile, the append is rolled back.
    pub fn push_regex(&mut self, record: &String)
        requires
            old(self).wf(),
        ensures
            final(self).wf(),
            regex_compiles(push_regex_spec(old(self)@.regex, record@)) ==> final(self)@
                == (RulerView { regex: push_regex_spec(old(self)@.regex, record@), ..old(self)@ }),
            !regex_compiles(push_regex_spec(old(self)@.regex, record@)) ==> final(self)@ == old(
                self,
            )@,
    {
        proof {
            reveal_strlit("|");
            assert("|"@ =~= seq!['|']);
        }
        let candidate: String = if self.regex.as_str().is_empty() {
            record.clone()
        } else {
            let mut c = self.regex.clone();
            c.append("|");
            c.append(record.as_str());
            c
        };
        proof {
            assert(candidate@ =~= push_regex_spec(self@.regex, record@));
        }
        self.commit_regex(candidate);
    }

    /// Withdraws `record` from the regex disjunction and recompiles; if the
    /// shortened disjunction does not compile, the removal is rolled back.
    pub fn pull_regex(&mut self, record: &String)
        requires
            old(self).wf(),
        ensures
            final(self).wf(),
            regex_compiles(pull_regex_spec(old(self)@.regex, record@)) ==> final(self)@
                == (RulerView { regex: pull_regex_spec(old(self)@.regex, record@), ..old(self)@ }),
            !regex_compiles(pull_regex_spec(old(self)@.regex, record@)) ==> final(self)@ == old(
                self,
            )@,
    {
        proof {
            reveal_strlit("|");
            assert("|"@ =~= seq!['|']);
        }
        let pbar = concat_str(record.as_str(), "|");
        let barp = concat_str("|", record.as_str());
        let rlen = self.regex.as_str().unicode_len();
        let candidate: String = match find_sub_str(self.regex.as_str(), pbar.as_str()) {
            Some(i) => {
                proof {
                    crate::text::lemma_find_sub(self.regex@, pbar@);
                    assert(i + pbar@.len() <= rlen);
                }
                let plen = pbar.as_str().unicode_len();
                let head = String::from_str(take_chars(self.regex.as_str(), i));
                let tail = skip_chars(self.regex.as_str(), i + plen);
                let mut c = head;
                c.append(tail);
                c
            },
            None => {
                match find_sub_str(self.regex.as_str(), barp.as_str()) {
                    Some(i) => {
                        proof {
                            crate::text::lemma_find_sub(self.regex@, barp@);
                            assert(i + barp@.len() <= rlen);
                        }
                        let plen = barp.as_str().unicode_len();
                        let head = String::from_str(take_chars(self.regex.as_str(), i));
                        let tail = skip_chars(self.regex.as_str(), i + plen);
                        let mut c = head;
                        c.append(tail);
                        c
                    },
                    None => {
                        if str_eq(self.regex.as_str(), record.as_str()) {
                            String::new()
                        } else {
                            self.regex.clone()
                        }
                    },
                }
            },
        };
        proof {
            assert(candidate@ =~= pull_regex_spec(self@.regex, record@));
        }
        self.commit_regex(candidate);
    }
}

/// The lower-case form of the suffix-family marker.
pub open spec fn marker_all() -> Seq<char> {
    seq!['a', 'l', 'l', ' ']
}

/// The lower-case form of the regex marker.
pub open spec fn marker_reg() -> Seq<char> {
    seq!['r', 'e', 'g', ' ']
}

/// The lower-case form of the expansion marker.
pub open spec fn marker_rzd() -> Seq<char> {
    seq!['r', 'z', 'd', ' ']
}

/// Effect of a suffix-family rule with remainder `record`: the remainder is
/// dot-anchored, a remainder with more than one dot also files its bare form
/// (and, under complement, the `www.` form) as exact hosts, and the anchored
/// remainder itself goes to the suffix index.
pub open spec fn apply_all(v: RulerView, record: Seq<char>, add: bool) -> RulerView {
    let r = if record.len() == 0 || record[0] != '.' {
        seq!['.'] + record
    } else {
        record
    };
    let v1 = if count_ch(r, '.') > 1 {
        let base = r.skip(1);
        let s0 = if v.complement {
            upd(v.strict, www_dot() + base, add)
        } else {
            v.strict
        };
        RulerView { strict: upd(s0, base, add), ..v }
    } else {
        v
    };
    RulerView { ends: upd(v1.ends, r, add), ..v1 }
}

/// Effect of a regex rule: the disjunction grows or shrinks by `record`, and
/// a change that would not compile is rolled back.
pub open spec fn apply_reg(v: RulerView, record: Seq<char>, add: bool) -> RulerView {
    let cand = if add {
        push_regex_spec(v.regex, record)
    } else {
        pull_regex_spec(v.regex, record)
    };
    if regex_compiles(cand) {
        RulerView { regex: cand, ..v }
    } else {
        v
    }
}

/// The expansion entries of `rec` over `exts`, inserted or removed one
/// extension at a time.
pub open spec fn rzd_fold(
    present: Set<Seq<char>>,
    rec: Seq<char>,
    exts: Seq<Seq<char>>,
    comp: bool,
    add: bool,
) -> Set<Seq<char>>
    decreases exts.len(),
{
    if exts.len() == 0 {
        present
    } else {
        let one = upd(present, rec + seq!['.'] + exts[0], add);
        let two = if comp {
            upd(one, www_dot() + rec + seq!['.'] + exts[0], add)
        } else {
            one
        };
        rzd_fold(two, rec, exts.drop_first(), comp, add)
    }
}

/// Effect of an expansion rule: under complement a leading `www.` is first
/// stripped from the remainder, then one entry per known extension (and its
/// `www.` form under complement) is filed in or withdrawn from the expansion
/// index.
pub open spec fn apply_rzd(v: RulerView, record: Seq<char>, add: bool) -> RulerView {
    let rec = if v.complement && prefix_of(www_dot(), record) {
        trim_spec(record.skip(4))
    } else {
        record
    };
    RulerView { present: rzd_fold(v.present, rec, v.extensions, v.complement, add), ..v }
}

/// Effect of a plain rule: under complement a leading `www.` is first
/// stripped, and both the bare host and its `www.` form are filed; without
/// complement the line goes in as it stands.
pub open spec fn apply_plain(v: RulerView, line: Seq<char>, add: bool) -> RulerView {
    let record = if v.complement && prefix_of(www_dot(), line) {
        trim_spec(line.skip(4))
    } else {
        line
    };
    let s0 = upd(v.strict, record, add);
    let s1 = if v.complement {
        upd(s0, www_dot() + record, add)
    } else {
        s0
    };
    RulerView { strict: s1, ..v }
}

/// Effect of one rule line: blank lines and comments change nothing; the
/// first matching marker (checked ASCII case-insensitively) classifies the
/// line, and everything else is a plain exact rule.
pub open spec fn rule_line_spec(v: RulerView, line: Seq<char>, add: bool) -> RulerView {
    if line.len() == 0 || line[0] == '#' {
        v
    } else if marker_match(line, marker_all()) {
        apply_all(v, trim_spec(line.skip(4)), add)
    } else if marker_match(line, marker_reg()) {
        apply_reg(v, trim_spec(line.skip(4)), add)
    } else if marker_match(line, marker_rzd()) {
        apply_rzd(v, trim_spec(line.skip(4)), add)
    } else {
        apply_plain(v, line, add)
    }
}

/// `rule_line_spec` folded over a sequence of lines.
pub open spec fn rule_lines_spec(v: RulerView, lines: Seq<Seq<char>>, add: bool) -> RulerView
    decreases lines.len(),
{
    if lines.len() == 0 {
        v
    } else {
        rule_lines_spec(rule_line_spec(v, lines[0], add), lines.drop_first(), add)
    }
}

impl Ruler {
    fn rule_all(&mut self, line: &String, add: bool) -> (r: bool)
        requires
            old(self).wf(),
        ensures
            final(self).wf(),
            r == marker_match(line@, marker_all()),
            r ==> final(self)@ == apply_all(old(self)@, trim_spec(line@.skip(4)), add),
            !r ==> final(self)@ == old(self)@,
    {
        proof {
            reveal_strlit("all ");
            reveal_strlit(".");
            reveal_strlit("www.");
            assert("all "@ =~= marker_all());
            assert("."@ =~= seq!['.']);
            assert("www."@ =~= www_dot());
        }
        if !marker_match_str(line.as_str(), "all ") {
            return false;
        }
        let ghost v0 = self@;
        let rest = trim_str(skip_chars(line.as_str(), 4));
        let ghost rr = trim_spec(line@.skip(4));
        let ghost rspec: Seq<char> = if rr.len() == 0 || rr[0] != '.' {
            seq!['.'] + rr
        } else {
            rr
        };
        let anchored = starts_with_str(rest, ".");
        proof {
            if prefix_of(seq!['.'], rest@) {
                assert(rest@[0] == rest@.take(1)[0]);
                assert(rest@[0] == '.');
            } else if rest@.len() > 0 && rest@[0] == '.' {
                assert(rest@.take(1) =~= seq!['.']);
                assert(false);
            }
        }
        let record: String = if !anchored {
            concat_str(".", rest)
        } else {
            String::from_str(rest)
        };
        proof {
            if !anchored {
                assert(record@ =~= seq!['.'] + rr);
            }
            assert(record@ == rspec);
            assert(record@[0] == '.');
        }
        if count_char(record.as_str(), '.') > 1 {
            if self.settings.handle_complement {
                let w = concat_str("www.", skip_chars(record.as_str(), 1));
                proof {
                    assert(w@ =~= www_dot() + rspec.skip(1));
                }
                if add {
                    self.push_strict(&w);
                } else {
                    self.pull_strict(&w);
                }
            }
            let base = String::from_str(skip_chars(record.as_str(), 1));
            if add {
                self.push_strict(&base);
            } else {
                self.pull_strict(&base);
            }
        }
        if add {
            self.push_ends(&record);
        } else {
            self.pull_ends(&record);
        }
        proof {
            assert(self@ =~= apply_all(v0, trim_spec(line@.skip(4)), add));
        }
        true
    }

    fn rule_reg(&mut self, line: &String, add: bool) -> (r: bool)
        requires
            old(self).wf(),
        ensures
            final(self).wf(),
            r == marker_match(line@, marker_reg()),
            r ==> final(self)@ == apply_reg(old(self)@, trim_spec(line@.skip(4)), add),
            !r ==> final(self)@ == old(self)@,
    {
        proof {
            reveal_strlit("reg ");
            assert("reg "@ =~= marker_reg());
        }
        if !marker_match_str(line.as_str(), "reg ") {
            return false;
        }
        let ghost v0 = self@;
        let rest = String::from_str(trim_str(skip_chars(line.as_str(), 4)));
        if add {
            self.push_regex(&rest);
        } else {
            self.pull_regex(&rest);
        }
        proof {
            assert(self@ =~= apply_reg(v0, trim_spec(line@.skip(4)), add));
        }
        true
    }

    fn rule_rzd(&mut self, line: &String, add: bool) -> (r: bool)
        requires
            old(self).wf(),
        ensures
            final(self).wf(),
            r == marker_match(line@, marker_rzd()),
            r ==> final(self)@ == apply_rzd(old(self)@, trim_spec(line@.skip(4)), add),
            !r ==> final(self)@ == old(self)@,
    {
        proof {
            reveal_strlit("rzd ");
            reveal_strlit("www.");
            reveal_strlit(".");
            assert("rzd "@ =~= marker_rzd());
            assert("www."@ =~= www_dot());
            assert("."@ =~= seq!['.']);
        }
        if !marker_match_str(line.as_str(), "rzd ") {
            return false;
        }
        let ghost v0 = self@;
        let mut record = String::from_str(trim_str(skip_chars(line.as_str(), 4)));
        if self.settings.handle_complement && starts_with_str(record.as_str(), "www.") {
            record = String::from_str(trim_str(skip_chars(record.as_str(), 4)));
        }
        let ghost rec = record@;
        let mut i: usize = 0;
        let n = self.settings.extensions.len();
        proof {
            assert(self@.extensions.skip(0) =~= self@.extensions);
        }
        while i < n
            invariant
                self.wf(),
                i <= n,
                n == self@.extensions.len(),
                record@ == rec,
                self@.extensions == v0.extensions,
                self@.complement == v0.complement,
                self@.strict == v0.strict,
                self@.ends == v0.ends,
                self@.regex == v0.regex,
                rzd_fold(self@.present, rec, self@.extensions.skip(i as int), v0.complement, add)
                    == rzd_fold(v0.present, rec, v0.extensions, v0.complement, add),
                "www."@ =~= www_dot(),
                "."@ =~= seq!['.'],
            decreases n - i,
        {
            let ghost pre = self@.present;
            let ghost remaining = self@.extensions.skip(i as int);
            let combo: String = {
                let mut c = record.clone();
                c.append(".");
                c.append(self.settings.extensions[i].as_str());
                c
            };
            proof {
                assert(self@.extensions[i as int] == self.settings.extensions@[i as int]@);
                assert(combo@ =~= rec + seq!['.'] + self@.extensions[i as int]);
                assert(remaining[0] == self@.extensions[i as int]);
            }
            if add {
                self.push_present(&combo);
            } else {
                self.pull_present(&combo);
            }
            if self.settings.handle_complement {
                let wcombo = concat_str("www.", combo.as_str());
                proof {
                    assert(wcombo@ =~= www_dot() + rec + seq!['.'] + v0.extensions[i as int]);
                }
                if add {
                    self.push_present(&wcombo);
                } else {
                    self.pull_present(&wcombo);
                }
            }
            proof {
                assert(remaining.drop_first() =~= self@.extensions.skip(i + 1));
                assert(rzd_fold(pre, rec, remaining, v0.complement, add) == rzd_fold(
                    self@.present,
                    rec,
                    remaining.drop_first(),
                    v0.complement,
                    add,
                ));
            }
            i += 1;
        }
        proof {
            assert(self@.extensions.skip(n as int) =~= Seq::<Seq<char>>::empty());
            assert(self@ =~= apply_rzd(v0, trim_spec(line@.skip(4)), add));
        }
        true
    }

    fn rule_plain(&mut self, line: &String, add: bool) -> (r: bool)
        requires
            old(self).wf(),
        ensures
            final(self).wf(),
            r,
            final(self)@ == apply_plain(old(self)@, line@, add),
    {
        proof {
            reveal_strlit("www.");
            assert("www."@ =~= www_dot());
        }
        let ghost v0 = self@;
        let record: String = if self.settings.handle_complement && starts_with_str(
            line.as_str(),
            "www.",
        ) {
            String::from_str(trim_str(skip_chars(line.as_str(), 4)))
        } else {
            line.clone()
        };
        if add {
            self.push_strict(&record);
        } else {
            self.pull_strict(&record);
        }
        if self.settings.handle_complement {
            let w = concat_str("www.", record.as_str());
            if add {
                self.push_strict(&w);
            } else {
                self.pull_strict(&w);
            }
        }
        proof {
            assert(self@ =~= apply_plain(v0, line@, add));
        }
        true
    }

    fn rule_line(&mut self, line: &String, add: bool)
        requires
            old(self).wf(),
        ensures
            final(self).wf(),
            final(self)@ == rule_line_spec(old(self)@, line@, add),
    {
        if line.as_str().is_empty() {
            return;
        }
        if line.as_str().get_char(0) == '#' {
            return;
        }
        let _ = self.rule_all(line, add) || self.rule_reg(line, add) || self.rule_rzd(line, add)
            || self.rule_plain(line, add);
    }

    /// Compiles one rule line into the Ruler: blank lines and comments are
    /// discarded; `ALL `, `REG ` and `RZD ` markers (any ASCII case) select
    /// the suffix, regex and expansion families; anything else is an exact
    /// rule.
    pub fn parse(&mut self, line: &String)
        requires
            old(self).wf(),
        ensures
            final(self).wf(),
            final(self)@ == rule_line_spec(old(self)@, line@, true),
    {
        self.rule_line(line, true);
    }

    /// Withdraws one rule line from the Ruler: the mirror of `parse`, with
    /// the same classification and the same complement expansions.
    pub fn unparse(&mut self, line: &String)
        requires
            old(self).wf(),
        ensures
            final(self).wf(),
            final(self)@ == rule_line_spec(old(self)@, line@, false),
    {
        self.rule_line(line, false);
    }

    /// Parses every line of `lines`, in order.
    pub fn parse_vec(&mut self, lines: &[String])
        requires
            old(self).wf(),
        ensures
            final(self).wf(),
            final(self)@ == rule_lines_spec(old(self)@, lines.deep_view(), true),
    {
        let ghost v0 = self@;
        let mut i: usize = 0;
        proof {
            assert(lines.deep_view().skip(0) =~= lines.deep_view());
        }
        while i < lines.len()
            invariant
                self.wf(),
                i <= lines@.len(),
                rule_lines_spec(self@, lines.deep_view().skip(i as int), true) == rule_lines_spec(
                    v0,
                    lines.deep_view(),
                    true,
                ),
            decreases lines@.len() - i,
        {
            let ghost pre = self@;
            let ghost remaining = lines.deep_view().skip(i as int);
            self.parse(&lines[i]);
            proof {
                assert(remaining[0] == lines.deep_view()[i as int]);
                assert(lines.deep_view()[i as int] == lines@[i as int]@);
                assert(remaining.drop_first() =~= lines.deep_view().skip(i + 1));
            }
            i += 1;
        }
        proof {
            assert(lines.deep_view().skip(lines@.len() as int) =~= Seq::<Seq<char>>::empty());
        }
    }

    /// Withdraws every line of `lines`, in order.
    pub fn unparse_vec(&mut self, lines: &[String])
        requires
            old(self).wf(),
        ensures
            final(self).wf(),
            final(self)@ == rule_lines_spec(old(self)@, lines.deep_view(), false),
    {
        let ghost v0 = self@;
        let mut i: usize = 0;
        proof {
            assert(lines.deep_view().skip(0) =~= lines.deep_view());
        }
        while i < lines.len()
            invariant
                self.wf(),
                i <= lines@.len(),
                rule_lines_spec(self@, lines.deep_view().skip(i as int), false) == rule_lines_spec(
                    v0,
                    lines.deep_view(),
                    false,
                ),
            decreases lines@.len() - i,
        {
            let ghost remaining = lines.deep_view().skip(i as int);
            self.unparse(&lines[i]);
            proof {
                assert(remaining[0] == lines.deep_view()[i as int]);
                assert(lines.deep_view()[i as int] == lines@[i as int]@);
                assert(remaining.drop_first() =~= lines.deep_view().skip(i + 1));
            }
            i += 1;
        }
        proof {
            assert(lines.deep_view().skip(lines@.len() as int) =~= Seq::<Seq<char>>::empty());
        }
    }

    /// Classifies and applies one suffix-family rule line; answers whether
    /// the line carried the `ALL ` marker.
    pub fn parse_all(&mut self, line: &String) -> (r: bool)
        requires
            old(self).wf(),
        ensures
            final(self).wf(),
            r == marker_match(line@, marker_all()),
            r ==> final(self)@ == apply_all(old(self)@, trim_spec(line@.skip(4)), true),
            !r ==> final(self)@ == old(self)@,
    {
        self.rule_all(line, true)
    }

    /// The mirror of `parse_all`: withdraws the rule.
    pub fn unparse_all(&mut self, line: &String) -> (r: bool)
        requires
            old(self).wf(),
        ensures
            final(self).wf(),
            r == marker_match(line@, marker_all()),
            r ==> final(self)@ == apply_all(old(self)@, trim_spec(line@.skip(4)), false),
            !r ==> final(self)@ == old(self)@,
    {
        self.rule_all(line, false)
    }

    /// Classifies and applies one regex rule line; answers whether the line
    /// carried the `REG ` marker.
    pub fn parse_regex(&mut self, line: &String) -> (r: bool)
        requires
            old(self).wf(),
        ensures
            final(self).wf(),
            r == marker_match(line@, marker_reg()),
            r ==> final(self)@ == apply_reg(old(self)@, trim_spec(line@.skip(4)), true),
            !r ==> final(self)@ == old(self)@,
    {
        self.rule_reg(line, true)
    }

    /// The mirror of `parse_regex`: withdraws the rule.
    pub fn unparse_regex(&mut self, line: &String) -> (r: bool)
        requires
            old(self).wf(),
        ensures
            final(self).wf(),
            r == marker_match(line@, marker_reg()),
            r ==> final(self)@ == apply_reg(old(self)@, trim_spec(line@.skip(4)), false),
            !r ==> final(self)@ == old(self)@,
    {
        self.rule_reg(line, false)
    }

    /// Classifies and applies one expansion rule line; answers whether the
    /// line carried the `RZD ` marker.
    pub fn parse_root_zone_db(&mut self, line: &String) -> (r: bool)
        requires
            old(self).wf(),
        ensures
            final(self).wf(),
            r == marker_match(line@, marker_rzd()),
            r ==> final(self)@ == apply_rzd(old(self)@, trim_spec(line@.skip(4)), true),
            !r ==> final(self)@ == old(self)@,
    {
        self.rule_rzd(line, true)
    }

    /// The mirror of `parse_root_zone_db`: withdraws the rule.
    pub fn unparse_root_zone_db(&mut self, line: &String) -> (r: bool)
        requires
            old(self).wf(),
        ensures
            final(self).wf(),
            r == marker_match(line@, marker_rzd()),
            r ==> final(self)@ == apply_rzd(old(self)@, trim_spec(line@.skip(4)), false),
            !r ==> final(self)@ == old(self)@,
    {
        self.rule_rzd(line, false)
    }

    /// Applies one plain exact rule line.
    pub fn parse_plain(&mut self, line: &String) -> (r: bool)
        requires
            old(self).wf(),
        ensures
            final(self).wf(),
            r,
            final(self)@ == apply_plain(old(self)@, line@, true),
    {
        self.rule_plain(line, true)
    }

    /// The mirror of `parse_plain`: withdraws the rule.
    pub fn unparse_plain(&mut self, line: &String) -> (r: bool)
        requires
            old(self).wf(),
        ensures
            final(self).wf(),
            r,
            final(self)@ == apply_plain(old(self)@, line@, false),
    {
        self.rule_plain(line, false)
    }
}

/// Whether some active rule of `v` matches `line`: blank lines and comments
/// never match; otherwise the record's network locus is tested against the
/// exact hosts, the expansion entries, the suffixes filed under its bucket
/// key, and the regex disjunction, in that order.
pub open spec fn whitelisted_spec(v: RulerView, line: Seq<char>) -> bool {
    if line.len() == 0 || line[0] == '#' {
        false
    } else {
        let f = netloc_spec(line);
        let red = reduce_spec(f);
        ||| v.strict.contains(f)
        ||| v.present.contains(f)
        ||| exists|m: Seq<char>|
            #[trigger] v.ends.contains(m) && last_n(reduce_spec(m), 3) == last_n(red, 3)
                && suffix_of(m, f)
        ||| v.regex.len() > 0 && regex_match(v.regex, f) == Some(true)
    }
}

/// The pipeline's normalized form of a record: the network locus without its
/// port, in IDNA ASCII (lower-cased) form; a record whose host the encoder
/// rejects passes through unchanged.
pub open spec fn idnaze_spec(line: Seq<char>) -> Seq<char> {
    let h = truncate_at(netloc_spec(line), seq![':']);
    match idna_host(h) {
        Some(a) => a,
        None => line,
    }
}

/// What the filter keeps of one record: its normalized form, unless that
/// form is whitelisted.
pub open spec fn surviving_spec(v: RulerView, line: Seq<char>) -> Option<Seq<char>> {
    let n = idnaze_spec(line);
    if whitelisted_spec(v, n) {
        None
    } else {
        Some(n)
    }
}

/// The surviving normalized records of `lines`, in input order.
pub open spec fn filter_spec(v: RulerView, lines: Seq<Seq<char>>) -> Seq<Seq<char>>
    decreases lines.len(),
{
    if lines.len() == 0 {
        Seq::<Seq<char>>::empty()
    } else {
        let rest = filter_spec(v, lines.drop_last());
        match surviving_spec(v, lines.last()) {
            Some(n) => rest + seq![n],
            None => rest,
        }
    }
}

impl Ruler {
    /// Tests `line` against the rules: the network locus of the record is
    /// matched against every index, and any hit whitelists the line.
    pub fn is_whitelisted(&self, line: &String) -> (r: bool)
        requires
            self.wf(),
        ensures
            r == whitelisted_spec(self@, line@),
    {
        if line.as_str().is_empty() {
            return false;
        }
        if line.as_str().get_char(0) == '#' {
            return false;
        }
        let fline = extract_netloc(line);
        let red = self.reduce(&fline);
        let (k4, k3) = self.search_keys(&red);
        if bucket_contains(&self.strict, k4.as_str(), fline.as_str(), Ghost(strict_keyf())) {
            return true;
        }
        if bucket_contains(&self.present, k4.as_str(), fline.as_str(), Ghost(strict_keyf())) {
            return true;
        }
        let ends_hit = bucket_suffix_match(&self.ends, k3.as_str(), fline.as_str(), Ghost(ends_keyf()));
        proof {
            let f = netloc_spec(line@);
            let rd = reduce_spec(f);
            if ends_hit {
                let m = choose|m: Seq<char>|
                    #![auto]
                    bucket_set(self.ends@).contains(m) && ends_keyf()(m) == k3@ && suffix_of(
                        m,
                        fline@,
                    );
                assert(self@.ends.contains(m) && last_n(reduce_spec(m), 3) == last_n(rd, 3)
                    && suffix_of(m, f));
            } else if exists|m: Seq<char>|
                #[trigger] self@.ends.contains(m) && last_n(reduce_spec(m), 3) == last_n(rd, 3)
                    && suffix_of(m, f) {
                let m = choose|m: Seq<char>|
                    #[trigger] self@.ends.contains(m) && last_n(reduce_spec(m), 3) == last_n(rd, 3)
                        && suffix_of(m, f);
                assert(bucket_set(self.ends@).contains(m) && ends_keyf()(m) == k3@ && suffix_of(
                    m,
                    fline@,
                ));
            }
        }
        if ends_hit {
            return true;
        }
        if !self.regex.as_str().is_empty() {
            return regex_is_match(&self.compiled_regex, fline.as_str());
        }
        false
    }

    /// Normalizes one record as the filter pipeline does: extracts the
    /// network locus, drops the port, and converts the host to its IDNA
    /// ASCII (lower-cased) form; a record the encoder rejects comes back
    /// unchanged.
    pub fn idnaze_line(&self, line: &String) -> (r: String)
        ensures
            r@ == idnaze_spec(line@),
    {
        proof {
            reveal_strlit(":");
            assert(":"@ =~= seq![':']);
        }
        let netloc = extract_netloc(line);
        let host = truncate_at_str(netloc.as_str(), ":");
        match to_ascii_host(host.as_str()) {
            Some(a) => a,
            None => line.clone(),
        }
    }

    /// One filter step: the normalized record, or nothing when the
    /// normalized record is whitelisted.
    pub fn process_line(&self, line: &String) -> (r: Option<String>)
        requires
            self.wf(),
        ensures
            r is Some <==> surviving_spec(self@, line@) is Some,
            r is Some ==> r.unwrap()@ == surviving_spec(self@, line@).unwrap(),
    {
        let n = self.idnaze_line(line);
        if self.is_whitelisted(&n) {
            None
        } else {
            Some(n)
        }
    }

    /// The sequential filter: normalizes each line and keeps, in input
    /// order, those whose normalized form no rule matches.
    pub fn filter_lines(&self, lines: &Vec<String>) -> (r: Vec<String>)
        requires
            self.wf(),
        ensures
            r.deep_view() == filter_spec(self@, lines.deep_view()),
    {
        let mut out: Vec<String> = Vec::new();
        let mut i: usize = 0;
        proof {
            assert(lines.deep_view().take(0) =~= Seq::<Seq<char>>::empty());
            assert(out.deep_view() =~= filter_spec(self@, lines.deep_view().take(0)));
        }
        while i < lines.len()
            invariant
                self.wf(),
                i <= lines@.len(),
                out.deep_view() == filter_spec(self@, lines.deep_view().take(i as int)),
            decreases lines@.len() - i,
        {
            let ghost pre = out.deep_view();
            match self.process_line(&lines[i]) {
                Some(n) => {
                    out.push(n);
                },
                None => {},
            }
            proof {
                let cur = lines.deep_view().take(i + 1);
                assert(cur.drop_last() =~= lines.deep_view().take(i as int));
                assert(cur.last() == lines.deep_view()[i as int]);
                assert(lines.deep_view()[i as int] == lines@[i as int]@);
                if surviving_spec(self@, lines@[i as int]@) is Some {
                    assert(out.deep_view() =~= pre + seq![
                        surviving_spec(self@, lines@[i as int]@).unwrap(),
                    ]);
                } else {
                    assert(out.deep_view() =~= pre);
                }
            }
            i += 1;
        }
        proof {
            assert(lines.deep_view().take(lines@.len() as int) =~= lines.deep_view());
        }
        out
    }

    /// The regex disjunction as text.
    pub fn regex_string(&self) -> (r: &String)
        ensures
            r@ == self@.regex,
    {
        &self.regex
    }

    /// The source pattern of the compiled regex; always in sync with
    /// `regex_string`.
    pub fn compiled_pattern(&self) -> (r: &str)
        requires
            self.wf(),
        ensures
            r@ == self@.regex,
    {
        regex_str(&self.compiled_regex)
    }

    /// The exact-host entries filed under bucket `key`: exactly the held
    /// hosts whose derived key is `key`, each once.
    pub fn strict_bucket<'a>(&'a self, key: &str) -> (r: Option<&'a Vec<String>>)
        requires
            self.wf(),
        ensures
            match r {
                Some(ms) => {
                    &&& members_distinct(ms@)
                    &&& forall|j: int|
                        #![auto]
                        0 <= j < ms@.len() ==> self@.strict.contains(ms@[j]@) && strict_keyf()(
                            ms@[j]@,
                        ) == key@
                    &&& forall|m: Seq<char>|
                        self@.strict.contains(m) && strict_keyf()(m) == key@ ==> exists|j: int|
                            #![auto]
                            0 <= j < ms@.len() && ms@[j]@ == m
                },
                None => forall|m: Seq<char>| #[trigger]
                    self@.strict.contains(m) ==> strict_keyf()(m) != key@,
            },
    {
        bucket_members(&self.strict, key, Ghost(strict_keyf()))
    }

    /// The expansion entries filed under bucket `key`.
    pub fn present_bucket<'a>(&'a self, key: &str) -> (r: Option<&'a Vec<String>>)
        requires
            self.wf(),
        ensures
            match r {
                Some(ms) => {
                    &&& members_distinct(ms@)
                    &&& forall|j: int|
                        #![auto]
                        0 <= j < ms@.len() ==> self@.present.contains(ms@[j]@) && strict_keyf()(
                            ms@[j]@,
                        ) == key@
                    &&& forall|m: Seq<char>|
                        self@.present.contains(m) && strict_keyf()(m) == key@ ==> exists|j: int|
                            #![auto]
                            0 <= j < ms@.len() && ms@[j]@ == m
                },
                None => forall|m: Seq<char>| #[trigger]
                    self@.present.contains(m) ==> strict_keyf()(m) != key@,
            },
    {
        bucket_members(&self.present, key, Ghost(strict_keyf()))
    }

    /// The suffix entries filed under bucket `key`.
    pub fn ends_bucket<'a>(&'a self, key: &str) -> (r: Option<&'a Vec<String>>)
        requires
            self.wf(),
        ensures
            match r {
                Some(ms) => {
                    &&& members_distinct(ms@)
                    &&& forall|j: int|
                        #![auto]
                        0 <= j < ms@.len() ==> self@.ends.contains(ms@[j]@) && ends_keyf()(
                            ms@[j]@,
                        ) == key@
                    &&& forall|m: Seq<char>|
                        self@.ends.contains(m) && ends_keyf()(m) == key@ ==> exists|j: int|
                            #![auto]
                            0 <= j < ms@.len() && ms@[j]@ == m
                },
                None => forall|m: Seq<char>| #[trigger]
                    self@.ends.contains(m) ==> ends_keyf()(m) != key@,
            },
    {
        bucket_members(&self.ends, key, Ghost(ends_keyf()))
    }

    /// The bucket keys of the exact-host index; a key stays after its last
    /// member is withdrawn.
    pub fn strict_keys(&self) -> (r: Vec<String>)
        requires
            self.wf(),
        ensures
            forall|m: Seq<char>| #[trigger]
                self@.strict.contains(m) ==> exists|i: int|
                    #![auto]
                    0 <= i < r@.len() && r@[i]@ == strict_keyf()(m),
    {
        let r = bucket_keys(&self.strict);
        proof {
            assert forall|m: Seq<char>| #[trigger]
                self@.strict.contains(m) implies exists|i: int|
                #![auto]
                0 <= i < r@.len() && r@[i]@ == strict_keyf()(m) by {
                let (i0, j0) = choose|i0: int, j0: int|
                    #![auto]
                    0 <= i0 < self.strict@.len() && 0 <= j0 < self.strict@[i0].members@.len()
                        && self.strict@[i0].members@[j0]@ == m;
                assert(r@[i0]@ == strict_keyf()(m));
            }
        }
        r
    }

    /// The bucket keys of the expansion index.
    pub fn present_keys(&self) -> (r: Vec<String>)
        requires
            self.wf(),
        ensures
            forall|m: Seq<char>| #[trigger]
                self@.present.contains(m) ==> exists|i: int|
                    #![auto]
                    0 <= i < r@.len() && r@[i]@ == strict_keyf()(m),
    {
        let r = bucket_keys(&self.present);
        proof {
            assert forall|m: Seq<char>| #[trigger]
                self@.present.contains(m) implies exists|i: int|
                #![auto]
                0 <= i < r@.len() && r@[i]@ == strict_keyf()(m) by {
                let (i0, j0) = choose|i0: int, j0: int|
                    #![auto]
                    0 <= i0 < self.present@.len() && 0 <= j0 < self.present@[i0].members@.len()
                        && self.present@[i0].members@[j0]@ == m;
                assert(r@[i0]@ == strict_keyf()(m));
            }
        }
        r
    }

    /// The bucket keys of the suffix index.
    pub fn ends_keys(&self) -> (r: Vec<String>)
        requires
            self.wf(),
        ensures
            forall|m: Seq<char>| #[trigger]
                self@.ends.contains(m) ==> exists|i: int|
                    #![auto]
                    0 <= i < r@.len() && r@[i]@ == ends_keyf()(m),
    {
        let r = bucket_keys(&self.ends);
        proof {
            assert forall|m: Seq<char>| #[trigger]
                self@.ends.contains(m) implies exists|i: int|
                #![auto]
                0 <= i < r@.len() && r@[i]@ == ends_keyf()(m) by {
                let (i0, j0) = choose|i0: int, j0: int|
                    #![auto]
                    0 <= i0 < self.ends@.len() && 0 <= j0 < self.ends@[i0].members@.len()
                        && self.ends@[i0].members@[j0]@ == m;
                assert(r@[i0]@ == ends_keyf()(m));
            }
        }
        r
    }
}

} // verus!


