//! The laws of the rule engine, stated over the Ruler's mathematical model
//! and proved once and for all: parsing then withdrawing a rule restores an
//! empty Ruler, parsing is idempotent, the complement policy covers both
//! forms of a host, suffix rules are dot-anchored, and lookup sees only a
//! record's network locus.
use vstd::prelude::*;

use crate::apply_all;
use crate::apply_plain;
use crate::empty_view;
use crate::marker_all;
use crate::marker_reg;
use crate::marker_rzd;
use crate::pull_regex_spec;
use crate::push_regex_spec;
use crate::rule_line_spec;
use crate::rzd_fold;
use crate::whitelisted_spec;
use crate::RulerView;
use crate::text::contains_sub;
use crate::text::count_ch;
use crate::text::is_space;
use crate::text::last_n;
use crate::text::marker_match;
use crate::text::prefix_of;
use crate::text::reduce_spec;
use crate::text::sub_at;
use crate::text::suffix_of;
use crate::text::trim_end_spec;
use crate::text::trim_spec;
use crate::text::trim_start_spec;
use crate::text::www_dot;
use crate::trusted::plain_chars;
use crate::trusted::regex_compiles;
use crate::utils::netloc_spec;
use crate::utils::truncate_at;

verus! {

/// The expansion entries an `RZD` remainder generates: one dotted combination
/// per extension, and its `www.` form under complement.
pub open spec fn combo_set(rec: Seq<char>, exts: Seq<Seq<char>>, comp: bool) -> Set<Seq<char>> {
    Set::new(
        |m: Seq<char>|
            exists|i: int|
                #![auto]
                0 <= i < exts.len() && (m == rec + seq!['.'] + exts[i] || (comp && m == www_dot()
                    + rec + seq!['.'] + exts[i])),
    )
}

proof fn lemma_combo_set_unfold(rec: Seq<char>, exts: Seq<Seq<char>>, comp: bool)
    requires
        exts.len() > 0,
    ensures
        combo_set(rec, exts, comp) == combo_set(rec, exts.drop_first(), comp).insert(
            rec + seq!['.'] + exts[0],
        ).union(
            if comp {
                Set::<Seq<char>>::empty().insert(www_dot() + rec + seq!['.'] + exts[0])
            } else {
                Set::<Seq<char>>::empty()
            },
        ),
{
    let t = exts.drop_first();
    let c0 = rec + seq!['.'] + exts[0];
    let w0 = www_dot() + rec + seq!['.'] + exts[0];
    let rhs = combo_set(rec, t, comp).insert(c0).union(
        if comp {
            Set::<Seq<char>>::empty().insert(w0)
        } else {
            Set::<Seq<char>>::empty()
        },
    );
    assert forall|m: Seq<char>| combo_set(rec, exts, comp).contains(m) implies rhs.contains(m) by {
        let i = choose|i: int|
            #![auto]
            0 <= i < exts.len() && (m == rec + seq!['.'] + exts[i] || (comp && m == www_dot() + rec
                + seq!['.'] + exts[i]));
        if i == 0 {
        } else {
            assert(t[i - 1] == exts[i]);
            assert(combo_set(rec, t, comp).contains(m));
        }
    }
    assert forall|m: Seq<char>| rhs.contains(m) implies combo_set(rec, exts, comp).contains(m) by {
        if m == c0 || (comp && m == w0) {
            assert(0 <= 0 < exts.len() && (m == rec + seq!['.'] + exts[0] || (comp && m == www_dot()
                + rec + seq!['.'] + exts[0])));
        } else {
            let i = choose|i: int|
                #![auto]
                0 <= i < t.len() && (m == rec + seq!['.'] + t[i] || (comp && m == www_dot() + rec
                    + seq!['.'] + t[i]));
            assert(exts[i + 1] == t[i]);
            assert(0 <= i + 1 < exts.len() && (m == rec + seq!['.'] + exts[i + 1] || (comp && m
                == www_dot() + rec + seq!['.'] + exts[i + 1])));
        }
    }
    assert(combo_set(rec, exts, comp) =~= rhs);
}

proof fn lemma_rzd_fold_insert(p: Set<Seq<char>>, rec: Seq<char>, exts: Seq<Seq<char>>, comp: bool)
    ensures
        rzd_fold(p, rec, exts, comp, true) == p.union(combo_set(rec, exts, comp)),
    decreases exts.len(),
{
    if exts.len() == 0 {
        assert forall|m: Seq<char>| !combo_set(rec, exts, comp).contains(m) by {}
        assert(p.union(combo_set(rec, exts, comp)) =~= p);
    } else {
        let c0 = rec + seq!['.'] + exts[0];
        let w0 = www_dot() + rec + seq!['.'] + exts[0];
        let stepped = if comp {
            p.insert(c0).insert(w0)
        } else {
            p.insert(c0)
        };
        lemma_rzd_fold_insert(stepped, rec, exts.drop_first(), comp);
        lemma_combo_set_unfold(rec, exts, comp);
        assert(rzd_fold(p, rec, exts, comp, true) == stepped.union(
            combo_set(rec, exts.drop_first(), comp),
        ));
        assert(stepped.union(combo_set(rec, exts.drop_first(), comp)) =~= p.union(
            combo_set(rec, exts, comp),
        ));
    }
}

proof fn lemma_rzd_fold_remove(p: Set<Seq<char>>, rec: Seq<char>, exts: Seq<Seq<char>>, comp: bool)
    ensures
        rzd_fold(p, rec, exts, comp, false) == p.difference(combo_set(rec, exts, comp)),
    decreases exts.len(),
{
    if exts.len() == 0 {
        assert forall|m: Seq<char>| !combo_set(rec, exts, comp).contains(m) by {}
        assert(p.difference(combo_set(rec, exts, comp)) =~= p);
    } else {
        let c0 = rec + seq!['.'] + exts[0];
        let w0 = www_dot() + rec + seq!['.'] + exts[0];
        let stepped = if comp {
            p.remove(c0).remove(w0)
        } else {
            p.remove(c0)
        };
        lemma_rzd_fold_remove(stepped, rec, exts.drop_first(), comp);
        lemma_combo_set_unfold(rec, exts, comp);
        assert(rzd_fold(p, rec, exts, comp, false) == stepped.difference(
            combo_set(rec, exts.drop_first(), comp),
        ));
        assert(stepped.difference(combo_set(rec, exts.drop_first(), comp)) =~= p.difference(
            combo_set(rec, exts, comp),
        ));
    }
}

/// A pattern strictly longer than the text never occurs in it.
proof fn lemma_no_longer_sub(s: Seq<char>, pat: Seq<char>)
    requires
        pat.len() > s.len(),
    ensures
        !contains_sub(s, pat),
{
    assert forall|i: int| !sub_at(s, pat, i) by {}
}

/// Law: a rule parsed into an otherwise empty Ruler and then withdrawn
/// leaves the Ruler exactly as it was, so every query answers as it did
/// before the rule was ever seen. The hypothesis on the empty pattern is
/// what the regex engine's contract states of it.
pub proof fn lemma_round_trip(
    handle_complement: bool,
    extensions: Seq<Seq<char>>,
    line: Seq<char>,
    query: Seq<char>,
)
    requires
        regex_compiles(Seq::<char>::empty()),
    ensures
        ({
            let u = RulerView { extensions, ..empty_view(handle_complement) };
            let v = rule_line_spec(rule_line_spec(u, line, true), line, false);
            v == u && whitelisted_spec(v, query) == whitelisted_spec(u, query)
        }),
{
    let u = RulerView { extensions, ..empty_view(handle_complement) };
    let v1 = rule_line_spec(u, line, true);
    let v = rule_line_spec(v1, line, false);
    if line.len() == 0 || line[0] == '#' {
    } else if marker_match(line, marker_all()) {
        let record = trim_spec(line.skip(4));
        let r = if record.len() == 0 || record[0] != '.' {
            seq!['.'] + record
        } else {
            record
        };
        if count_ch(r, '.') > 1 {
            let base = r.skip(1);
            assert(v.strict =~= u.strict);
        }
        assert(v.ends =~= u.ends);
        assert(v =~= u);
    } else if marker_match(line, marker_reg()) {
        let record = trim_spec(line.skip(4));
        let pushed = push_regex_spec(u.regex, record);
        assert(pushed == record);
        if regex_compiles(record) {
            assert(v1 == (RulerView { regex: record, ..u }));
            lemma_no_longer_sub(record, record + seq!['|']);
            lemma_no_longer_sub(record, seq!['|'] + record);
            assert(pull_regex_spec(v1.regex, record) == Seq::<char>::empty());
            assert(v =~= u);
        } else {
            assert(v1 == u);
            if record.len() == 0 {
                assert(record =~= Seq::<char>::empty());
                assert(false);
            }
            lemma_no_longer_sub(u.regex, record + seq!['|']);
            lemma_no_longer_sub(u.regex, seq!['|'] + record);
            assert(u.regex != record);
            assert(pull_regex_spec(u.regex, record) == u.regex);
            assert(v =~= u);
        }
    } else if marker_match(line, marker_rzd()) {
        let record = trim_spec(line.skip(4));
        let rec = if u.complement && prefix_of(www_dot(), record) {
            trim_spec(record.skip(4))
        } else {
            record
        };
        lemma_rzd_fold_insert(u.present, rec, u.extensions, u.complement);
        lemma_rzd_fold_remove(v1.present, rec, u.extensions, u.complement);
        assert(v.present =~= u.present);
        assert(v =~= u);
    } else {
        assert(v.strict =~= u.strict);
        assert(v =~= u);
    }
}

/// Law: parsing the same non-regex rule twice leaves the Ruler exactly as
/// parsing it once does. (A regex rule appended twice widens the disjunction
/// text, which the model does not identify with the single form.)
pub proof fn lemma_parse_idempotent(v: RulerView, line: Seq<char>)
    requires
        !marker_match(line, marker_reg()),
    ensures
        rule_line_spec(rule_line_spec(v, line, true), line, true) == rule_line_spec(v, line, true),
{
    let v1 = rule_line_spec(v, line, true);
    let v2 = rule_line_spec(v1, line, true);
    if line.len() == 0 || line[0] == '#' {
    } else if marker_match(line, marker_all()) {
        assert(v2.strict =~= v1.strict);
        assert(v2.ends =~= v1.ends);
        assert(v2 =~= v1);
    } else if marker_match(line, marker_rzd()) {
        let record = trim_spec(line.skip(4));
        let rec = if v.complement && prefix_of(www_dot(), record) {
            trim_spec(record.skip(4))
        } else {
            record
        };
        lemma_rzd_fold_insert(v.present, rec, v.extensions, v.complement);
        lemma_rzd_fold_insert(v1.present, rec, v1.extensions, v1.complement);
        assert(v2.present =~= v1.present);
        assert(v2 =~= v1);
    } else {
        assert(v2.strict =~= v1.strict);
        assert(v2 =~= v1);
    }
}

proof fn lemma_trim_start_plain(s: Seq<char>)
    requires
        plain_chars(s),
    ensures
        plain_chars(trim_start_spec(s)),
    decreases s.len(),
{
    if s.len() > 0 && is_space(s[0]) {
        assert(plain_chars(s.drop_first())) by {
            assert forall|i: int|
                0 <= i < s.drop_first().len() implies #[trigger] s.drop_first()[i] != ':'
                && s.drop_first()[i] != '/' && s.drop_first()[i] != '?' && s.drop_first()[i]
                != '#' by {
                assert(s.drop_first()[i] == s[i + 1]);
            }
        }
        lemma_trim_start_plain(s.drop_first());
    }
}

proof fn lemma_trim_end_plain(s: Seq<char>)
    requires
        plain_chars(s),
    ensures
        plain_chars(trim_end_spec(s)),
    decreases s.len(),
{
    if s.len() > 0 && is_space(s[s.len() - 1]) {
        assert(plain_chars(s.drop_last())) by {
            assert forall|i: int|
                0 <= i < s.drop_last().len() implies #[trigger] s.drop_last()[i] != ':'
                && s.drop_last()[i] != '/' && s.drop_last()[i] != '?' && s.drop_last()[i]
                != '#' by {
                assert(s.drop_last()[i] == s[i]);
            }
        }
        lemma_trim_end_plain(s.drop_last());
    }
}

/// A record without URL punctuation is its own network locus.
pub proof fn lemma_plain_netloc(s: Seq<char>)
    requires
        plain_chars(s),
        s.len() > 0,
    ensures
        netloc_spec(s) == s,
{
    assert forall|i: int| !sub_at(s, seq!['/', '/'], i) by {
        if 0 <= i && i + 2 <= s.len() {
            assert(s.subrange(i, i + 2)[0] == s[i]);
            assert(s[i] != '/');
        }
    }
    assert forall|i: int| !sub_at(s, seq!['/'], i) by {
        if 0 <= i && i + 1 <= s.len() {
            assert(s.subrange(i, i + 1)[0] == s[i]);
            assert(s[i] != '/');
        }
    }
    assert(truncate_at(s, seq!['/', '/']) == s);
    assert(truncate_at(s, seq!['/']) == s);
}

/// Law: with the complement policy on, one plain rule whitelists both the
/// bare host and its `www.` form, whichever of the two the rule named.
pub proof fn lemma_complement_symmetry(v: RulerView, h: Seq<char>)
    requires
        v.complement,
        h.len() > 0,
        h[0] != '#',
        !marker_match(h, marker_all()),
        !marker_match(h, marker_reg()),
        !marker_match(h, marker_rzd()),
        plain_chars(h),
    ensures
        ({
            let b = if prefix_of(www_dot(), h) {
                trim_spec(h.skip(4))
            } else {
                h
            };
            let v1 = rule_line_spec(v, h, true);
            &&& (b.len() > 0 && b[0] != '#' ==> whitelisted_spec(v1, b))
            &&& whitelisted_spec(v1, www_dot() + b)
        }),
{
    let b = if prefix_of(www_dot(), h) {
        trim_spec(h.skip(4))
    } else {
        h
    };
    let v1 = rule_line_spec(v, h, true);
    assert(v1 == apply_plain(v, h, true));
    assert(v1.strict.contains(b));
    assert(v1.strict.contains(www_dot() + b));
    assert(plain_chars(b)) by {
        if prefix_of(www_dot(), h) {
            assert(plain_chars(h.skip(4))) by {
                assert forall|i: int|
                    0 <= i < h.skip(4).len() implies #[trigger] h.skip(4)[i] != ':' && h.skip(4)[i]
                    != '/' && h.skip(4)[i] != '?' && h.skip(4)[i] != '#' by {
                    assert(h.skip(4)[i] == h[i + 4]);
                }
            }
            lemma_trim_start_plain(h.skip(4));
            lemma_trim_end_plain(trim_start_spec(h.skip(4)));
        }
    }
    if b.len() > 0 && b[0] != '#' {
        lemma_plain_netloc(b);
        assert(whitelisted_spec(v1, b));
    }
    let wb = www_dot() + b;
    assert(plain_chars(wb)) by {
        assert forall|i: int|
            0 <= i < wb.len() implies #[trigger] wb[i] != ':' && wb[i] != '/' && wb[i] != '?'
            && wb[i] != '#' by {
            if i < 4 {
                assert(wb[i] == www_dot()[i]);
            } else {
                assert(wb[i] == b[i - 4]);
            }
        }
    }
    assert(wb.len() > 0);
    assert(wb[0] == 'w');
    lemma_plain_netloc(wb);
    assert(whitelisted_spec(v1, wb));
}

/// A suffix of at least three characters fixes the last three characters of
/// whatever it ends.
proof fn lemma_suffix_last3(m: Seq<char>, x: Seq<char>)
    requires
        suffix_of(m, x),
        m.len() >= 3,
    ensures
        last_n(x, 3) == last_n(m, 3),
{
    assert(last_n(x, 3) =~= last_n(m, 3)) by {
        assert forall|i: int| 0 <= i < 3 implies last_n(x, 3)[i] == last_n(m, 3)[i] by {
            assert(x.skip(x.len() - m.len())[m.len() - 3 + i] == x[x.len() - 3 + i]);
            assert(m[m.len() - 3 + i] == x[x.len() - 3 + i]);
        }
    }
}

/// Law: a suffix-family rule `ALL .s` matches exactly the records that end
/// with `.s`, together with the bare host `s` itself; a record that merely
/// ends with the letters of `s` is not matched.
pub proof fn lemma_suffix_strictness(s: Seq<char>, x: Seq<char>)
    requires
        s.len() > 0,
        s[0] != '.',
        count_ch(s, '.') >= 1,
        trim_spec(seq!['.'] + s) == seq!['.'] + s,
        plain_chars(x),
        x.len() > 0,
        x[0] != '#',
        !prefix_of(www_dot(), x),
    ensures
        ({
            let line = marker_all() + (seq!['.'] + s);
            let v1 = rule_line_spec(empty_view(false), line, true);
            &&& suffix_of(seq!['.'] + s, x) ==> whitelisted_spec(v1, x)
            &&& x == s ==> whitelisted_spec(v1, x)
            &&& !suffix_of(seq!['.'] + s, x) && x != s ==> !whitelisted_spec(v1, x)
        }),
{
    let u = empty_view(false);
    let dotted = seq!['.'] + s;
    let line = marker_all() + dotted;
    assert(marker_match(line, marker_all())) by {
        assert forall|i: int|
            0 <= i < marker_all().len() implies crate::text::ci_eq(
            line[i],
            #[trigger] marker_all()[i],
        ) by {
            assert(line[i] == marker_all()[i]);
        }
    }
    assert(line[0] == 'a');
    assert(line.skip(4) =~= dotted);
    let v1 = rule_line_spec(u, line, true);
    assert(v1 == apply_all(u, dotted, true));
    assert(dotted[0] == '.');
    assert(count_ch(dotted, '.') > 1) by {
        assert(dotted.drop_first() =~= s);
    }
    let base = dotted.skip(1);
    assert(base =~= s);
    assert(v1.strict == u.strict.insert(s));
    assert(v1.ends == u.ends.insert(dotted));
    assert(v1.present =~= Set::<Seq<char>>::empty());
    assert(v1.regex.len() == 0);
    lemma_plain_netloc(x);
    assert(netloc_spec(x) == x);
    assert(reduce_spec(x) == x);
    assert(s.len() >= 2) by {
        if s.len() == 1 {
            assert(s.drop_first() =~= Seq::<char>::empty());
            assert(count_ch(Seq::<char>::empty(), '.') == 0);
            assert(count_ch(s, '.') == if s[0] == '.' {
                1int
            } else {
                0int
            });
        }
    }
    assert(dotted.len() >= 3);
    assert(reduce_spec(dotted) == dotted) by {
        if prefix_of(www_dot(), dotted) {
            assert(dotted.take(4)[0] == dotted[0]);
        }
    }
    if suffix_of(dotted, x) {
        lemma_suffix_last3(dotted, x);
        assert(v1.ends.contains(dotted) && last_n(reduce_spec(dotted), 3) == last_n(
            reduce_spec(x),
            3,
        ) && suffix_of(dotted, x));
        assert(whitelisted_spec(v1, x));
    }
    if x == s {
        assert(v1.strict.contains(x));
        assert(whitelisted_spec(v1, x));
    }
    if !suffix_of(dotted, x) && x != s {
        assert(!v1.strict.contains(x));
        assert forall|m: Seq<char>|
            !(#[trigger] v1.ends.contains(m) && last_n(reduce_spec(m), 3) == last_n(
                reduce_spec(x),
                3,
            ) && suffix_of(m, x)) by {
            if v1.ends.contains(m) {
                assert(m == dotted);
            }
        }
        assert(!whitelisted_spec(v1, x));
    }
}

/// Law: lookup sees only a record's network locus, so a URL-like record and
/// its bare network locus answer alike.
pub proof fn lemma_url_netloc(v: RulerView, line: Seq<char>)
    requires
        line.len() > 0,
        line[0] != '#',
        netloc_spec(line).len() > 0,
        netloc_spec(line)[0] != '#',
        plain_chars(netloc_spec(line)),
    ensures
        whitelisted_spec(v, line) == whitelisted_spec(v, netloc_spec(line)),
{
    lemma_plain_netloc(netloc_spec(line));
}

} // verus!
