//! The rewrite engine: ordered, first-occurrence-only literal substitutions on one chunk,
//! bounded by the chunk's logical length, followed by a length-marker correction.
use vstd::prelude::*;
use vstd::string::StringSliceAdditionalSpecFns;
use crate::bytes::{byte_len, extend_range};
use crate::matcher::{find, first_occurrence, is_first_occurrence, lemma_first_occurrence_unique, occurs_at};

verus! {

/// One substitution: the first occurrence of `from` becomes `to`.
#[derive(Clone, Debug)]
pub struct Rule {
    pub from: Vec<u8>,
    pub to: Vec<u8>,
}

/// A textual field that declares a size: `label` followed by the decimal `base`.
pub struct LengthMarker {
    pub label: Vec<u8>,
    pub base: u64,
}

/// The configuration of the rewrite engine.
pub struct RuleSet {
    /// A line deleted outright before the substitutions run.
    pub strip: Option<Vec<u8>>,
    /// The substitutions, applied in order.
    pub rules: Vec<Rule>,
    /// The size declaration kept consistent with the substitutions' net length change.
    pub marker: Option<LengthMarker>,
}

/// What a `RuleSet` means: byte sequences and numbers.
pub struct RuleSetView {
    pub strip: Option<Seq<u8>>,
    pub rules: Seq<(Seq<u8>, Seq<u8>)>,
    pub marker: Option<(Seq<u8>, nat)>,
}

/// What a `Rule` means: the pattern and its replacement.
pub open spec fn rule_view(r: Rule) -> (Seq<u8>, Seq<u8>) {
    (r.from@, r.to@)
}

impl View for RuleSet {
    type V = RuleSetView;

    open spec fn view(&self) -> RuleSetView {
        RuleSetView {
            strip: match self.strip {
                Some(s) => Some(s@),
                None => None,
            },
            rules: self.rules@.map_values(|r: Rule| rule_view(r)),
            marker: match self.marker {
                Some(m) => Some((m.label@, m.base as nat)),
                None => None,
            },
        }
    }
}

/// ASCII decimal digits of `n`, most significant first.
pub open spec fn decimal(n: nat) -> Seq<u8>
    decreases n,
{
    if n < 10 {
        seq![(48 + n) as u8]
    } else {
        decimal(n / 10).push((48 + n % 10) as u8)
    }
}

/// ASCII decimal form of `v`, with a leading `-` when it is negative.
pub open spec fn signed_decimal(v: int) -> Seq<u8> {
    if v < 0 {
        seq![45u8] + decimal((-v) as nat)
    } else {
        decimal(v as nat)
    }
}

/// The text of a length marker declaring `value`.
pub open spec fn marker_text(label: Seq<u8>, value: int) -> Seq<u8> {
    label + signed_decimal(value)
}

/// `content` with `removed` bytes at `at` replaced by `insert`.
pub open spec fn splice(content: Seq<u8>, at: int, removed: int, insert: Seq<u8>) -> Seq<u8> {
    content.subrange(0, at) + insert + content.subrange(at + removed, content.len() as int)
}

/// The first occurrence of `from` replaced by `to`, where both the match and the replacement
/// end strictly before `bound`; otherwise `content` unchanged.
pub open spec fn replace_first(content: Seq<u8>, from: Seq<u8>, to: Seq<u8>, bound: int) -> Seq<u8> {
    match first_occurrence(from, content) {
        Some(i) => if i + from.len() < bound && i + to.len() < bound {
            splice(content, i, from.len() as int, to)
        } else {
            content
        },
        None => content,
    }
}

/// The rules applied one after the other, each with the same bound.
pub open spec fn apply_rules(content: Seq<u8>, rules: Seq<(Seq<u8>, Seq<u8>)>, bound: int) -> Seq<u8>
    decreases rules.len(),
{
    if rules.len() == 0 {
        content
    } else {
        replace_first(
            apply_rules(content, rules.drop_last(), bound),
            rules.last().0,
            rules.last().1,
            bound,
        )
    }
}

/// The chunk with the configured line deleted.
pub open spec fn stripped(rules: RuleSetView, chunk: Seq<u8>, length: int) -> Seq<u8> {
    match rules.strip {
        Some(s) => replace_first(chunk, s, Seq::empty(), length),
        None => chunk,
    }
}

/// The logical length once the configured line is deleted.
pub open spec fn stripped_length(rules: RuleSetView, chunk: Seq<u8>, length: int) -> int {
    length - (chunk.len() - stripped(rules, chunk, length).len())
}

/// The chunk after the deletion and the substitutions.
pub open spec fn substituted(rules: RuleSetView, chunk: Seq<u8>, length: int) -> Seq<u8> {
    apply_rules(stripped(rules, chunk, length), rules.rules, stripped_length(rules, chunk, length))
}

/// How much the substitutions (not the deletion) changed the chunk's length.
pub open spec fn substitution_delta(rules: RuleSetView, chunk: Seq<u8>, length: int) -> int {
    substituted(rules, chunk, length).len() - stripped(rules, chunk, length).len()
}

/// The whole rewrite of one chunk whose first `length` bytes are valid.
pub open spec fn rewritten(rules: RuleSetView, chunk: Seq<u8>, length: int) -> Seq<u8> {
    let s = substituted(rules, chunk, length);
    let d = substitution_delta(rules, chunk, length);
    match rules.marker {
        Some((label, base)) => if d != 0 {
            replace_first(
                s,
                marker_text(label, base as int),
                marker_text(label, base + d),
                stripped_length(rules, chunk, length) + d,
            )
        } else {
            s
        },
        None => s,
    }
}

/// Appends the decimal digits of `n` to `out`.
pub fn push_decimal(out: &mut Vec<u8>, n: u128)
    ensures
        final(out)@ == old(out)@ + decimal(n as nat),
    decreases n,
{
    if n >= 10 {
        push_decimal(out, n / 10);
    }
    out.push((48 + n % 10) as u8);
    proof {
        if n >= 10 {
            assert(decimal(n as nat) == decimal((n / 10) as nat).push((48 + n % 10) as u8));
        }
    }
    assert(out@ =~= old(out)@ + decimal(n as nat));
}

/// Appends the signed decimal form of `v` to `out`.
pub fn push_signed_decimal(out: &mut Vec<u8>, v: i128)
    requires
        v > i128::MIN,
    ensures
        final(out)@ == old(out)@ + signed_decimal(v as int),
{
    if v < 0 {
        out.push(45u8);
        push_decimal(out, (-v) as u128);
        assert(out@ =~= old(out)@ + signed_decimal(v as int));
    } else {
        push_decimal(out, v as u128);
    }
}

/// Replaces the first occurrence of `from` in `content` by `to`, unless the match or the
/// replacement would reach `length` or beyond.
pub fn replace(from: &[u8], to: &[u8], content: &mut Vec<u8>, length: usize)
    ensures
        final(content)@ == replace_first(old(content)@, from@, to@, length as int),
{
    let search = find(from, content.as_slice());
    if let Some(idx) = search {
        if idx >= length || from.len() >= length - idx || to.len() >= length - idx {
            return;
        }
        let mut new_vec: Vec<u8> = Vec::new();
        extend_range(&mut new_vec, content.as_slice(), 0, idx);
        extend_range(&mut new_vec, to, 0, to.len());
        extend_range(&mut new_vec, content.as_slice(), idx + from.len(), content.len());
        assert(to@.subrange(0, to@.len() as int) =~= to@);
        assert(new_vec@ =~= splice(old(content)@, idx as int, from@.len() as int, to@));
        *content = new_vec;
    }
}

/// A bound at or below zero admits no replacement.
proof fn lemma_replace_nonpositive_bound(content: Seq<u8>, from: Seq<u8>, to: Seq<u8>, bound: int)
    requires
        bound <= 0,
    ensures
        replace_first(content, from, to, bound) == content,
{
}

/// Deleting a line shrinks the chunk by less than its logical length.
proof fn lemma_strip_shrinks(content: Seq<u8>, line: Seq<u8>, length: int)
    ensures
        replace_first(content, line, Seq::empty(), length).len() <= content.len(),
        replace_first(content, line, Seq::empty(), length).len() == content.len()
            || content.len() - replace_first(content, line, Seq::empty(), length).len() < length,
{
    match first_occurrence(line, content) {
        Some(i) => {
            if i + line.len() < length && i < length {
                assert(splice(content, i, line.len() as int, Seq::empty()).len() == content.len()
                    - line.len()) by {
                    let choice = choose|k: int| crate::matcher::is_first_occurrence(line, content, k);
                    assert(crate::matcher::is_first_occurrence(line, content, choice));
                }
            }
        },
        None => {},
    }
}

/// Rewrites the first `length` bytes of `buffer` as the rule set says: deletes the configured
/// line, applies each substitution once, and rewrites the length marker when the
/// substitutions changed the length. Returns the net change of the buffer's length.
pub fn rewrite(buffer: &mut Vec<u8>, length: usize, rules: &RuleSet) -> (r: isize)
    requires
        length <= old(buffer)@.len(),
    ensures
        final(buffer)@ == rewritten(rules@, old(buffer)@, length as int),
        r == final(buffer)@.len() - old(buffer)@.len(),
{
    let ghost chunk = buffer@;
    let ghost given = length as int;
    let old_len = byte_len(buffer);
    let mut bound = length;
    match &rules.strip {
        Some(line) => {
            let empty: Vec<u8> = Vec::new();
            assert(empty@ =~= Seq::<u8>::empty());
            replace(line.as_slice(), empty.as_slice(), buffer, bound);
            proof {
                lemma_strip_shrinks(chunk, line@, given);
            }
            let diff = old_len - byte_len(buffer);
            bound = bound - diff;
        },
        None => {},
    }
    assert(buffer@ == stripped(rules@, chunk, given));
    assert(bound == stripped_length(rules@, chunk, given));
    let ghost base_chunk = buffer@;
    let stripped_len = byte_len(buffer);
    let mut k: usize = 0;
    while k < rules.rules.len()
        invariant
            k <= rules.rules@.len(),
            buffer@ == apply_rules(base_chunk, rules@.rules.subrange(0, k as int), bound as int),
        decreases rules.rules@.len() - k,
    {
        let rule = &rules.rules[k];
        replace(rule.from.as_slice(), rule.to.as_slice(), buffer, bound);
        proof {
            let done = rules@.rules.subrange(0, k + 1);
            assert(done.drop_last() =~= rules@.rules.subrange(0, k as int));
            assert(done.last() == rule_view(*rule));
        }
        k = k + 1;
    }
    assert(rules@.rules.subrange(0, rules@.rules.len() as int) =~= rules@.rules);
    let substituted_len = byte_len(buffer);
    let delta: isize = substituted_len as isize - stripped_len as isize;
    if delta != 0 {
        match &rules.marker {
            Some(m) => {
                let value: i128 = m.base as i128 + delta as i128;
                let mut pattern: Vec<u8> = Vec::new();
                extend_range(&mut pattern, m.label.as_slice(), 0, m.label.len());
                let mut declared: Vec<u8> = Vec::new();
                extend_range(&mut declared, m.label.as_slice(), 0, m.label.len());
                assert(m.label@.subrange(0, m.label@.len() as int) =~= m.label@);
                push_decimal(&mut pattern, m.base as u128);
                push_signed_decimal(&mut declared, value);
                let marker_bound: usize = if delta >= 0 {
                    bound + delta as usize
                } else if bound >= (-delta) as usize {
                    bound - (-delta) as usize
                } else {
                    0
                };
                proof {
                    if (bound as int) + (delta as int) < 0 {
                        lemma_replace_nonpositive_bound(buffer@, pattern@, declared@, 0);
                        lemma_replace_nonpositive_bound(
                            buffer@,
                            pattern@,
                            declared@,
                            bound + delta,
                        );
                    }
                }
                replace(pattern.as_slice(), declared.as_slice(), buffer, marker_bound);
            },
            None => {},
        }
    }
    let new_len = byte_len(buffer);
    new_len as isize - old_len as isize
}

/// Copies the bytes of a string into a new vector.
fn str_bytes(s: &str) -> (r: Vec<u8>)
    ensures
        r@ == s.spec_bytes(),
{
    let b = s.as_bytes();
    let mut out: Vec<u8> = Vec::new();
    extend_range(&mut out, b, 0, b.len());
    assert(b@.subrange(0, b@.len() as int) =~= b@);
    out
}

/// The replacement text that fills in the login form's credentials.
pub open spec fn password_segment_spec(password: Seq<u8>) -> Seq<u8> {
    "s='admin',r='".spec_bytes() + password + "'".spec_bytes()
}

/// Builds the replacement text that fills in the login form's credentials.
pub fn password_segment(password: &str) -> (r: Vec<u8>)
    ensures
        r@ == password_segment_spec(password.spec_bytes()),
{
    let mut out = str_bytes("s='admin',r='");
    let p = password.as_bytes();
    extend_range(&mut out, p, 0, p.len());
    let close = str_bytes("'");
    extend_range(&mut out, close.as_slice(), 0, close.len());
    assert(p@.subrange(0, p@.len() as int) =~= p@);
    assert(close@.subrange(0, close@.len() as int) =~= close@);
    out
}

/// The rule set of the login page: drop the frame-embedding header, call the login handler
/// right away, fill in the credentials, then the `extra` rules, and keep the declared
/// content length of the page in step.
pub open spec fn login_rules(segment: Seq<u8>, extra: Seq<(Seq<u8>, Seq<u8>)>) -> RuleSetView {
    RuleSetView {
        strip: Some("X-Frame-Options: SAMEORIGIN\r\n".spec_bytes()),
        rules: seq![
            ("{this._beforeLogin()}".spec_bytes(), "{this._beforeLogin();this._onLogin()}".spec_bytes()),
            ("s=o.getValue(),r=n.getValue()".spec_bytes(), segment),
        ] + extra,
        marker: Some(("CONTENT-LENGTH: ".spec_bytes(), 6236)),
    }
}

impl RuleSet {
    /// The rule set of the login page, with `segment` as the credentials' text and `extra`
    /// substitutions after the built-in ones.
    pub fn login(segment: &[u8], extra: Vec<Rule>) -> (r: RuleSet)
        ensures
            r@ == login_rules(segment@, extra@.map_values(|x: Rule| rule_view(x))),
    {
        let mut seg: Vec<u8> = Vec::new();
        extend_range(&mut seg, segment, 0, segment.len());
        assert(segment@.subrange(0, segment@.len() as int) =~= segment@);
        let mut rules: Vec<Rule> = Vec::new();
        rules.push(Rule {
            from: str_bytes("{this._beforeLogin()}"),
            to: str_bytes("{this._beforeLogin();this._onLogin()}"),
        });
        rules.push(Rule { from: str_bytes("s=o.getValue(),r=n.getValue()"), to: seg });
        let mut extra = extra;
        let ghost extra_view = extra@;
        rules.append(&mut extra);
        let r = RuleSet {
            strip: Some(str_bytes("X-Frame-Options: SAMEORIGIN\r\n")),
            rules,
            marker: Some(LengthMarker { label: str_bytes("CONTENT-LENGTH: "), base: 6236 }),
        };
        assert(r@.rules =~= login_rules(segment@, extra_view.map_values(|x: Rule| rule_view(x))).rules);
        r
    }
}

/// Rewrites the first `length` bytes of `buffer` with the login page's rule set, the
/// credentials' text being `password_segment`. Returns the net change of the buffer's length.
pub fn modify_buffer(buffer: &mut Vec<u8>, length: usize, password_segment: &str) -> (r: isize)
    requires
        length <= old(buffer)@.len(),
    ensures
        final(buffer)@ == rewritten(login_rules(password_segment.spec_bytes(), seq![]), old(buffer)@, length as int),
        r == final(buffer)@.len() - old(buffer)@.len(),
{
    let rules = RuleSet::login(password_segment.as_bytes(), Vec::new());
    assert(Seq::<Rule>::empty().map_values(|x: Rule| rule_view(x)) =~= seq![]);
    rewrite(buffer, length, &rules)
}

/// A substitution replaces the first occurrence of its pattern and nothing else: a second,
/// later occurrence that does not overlap the first is still in the chunk afterwards,
/// shifted by the change in length.
pub proof fn lemma_only_first_occurrence_replaced(
    content: Seq<u8>,
    from: Seq<u8>,
    to: Seq<u8>,
    bound: int,
    i: int,
    j: int,
)
    requires
        is_first_occurrence(from, content, i),
        occurs_at(from, content, j),
        i + from.len() <= j,
    ensures
        replace_first(content, from, to, bound) == content
            || replace_first(content, from, to, bound) == splice(content, i, from.len() as int, to),
        occurs_at(
            from,
            replace_first(content, from, to, bound),
            j + replace_first(content, from, to, bound).len() - content.len(),
        ),
{
    lemma_first_occurrence_unique(from, content, i);
    let r = replace_first(content, from, to, bound);
    if r != content {
        let shift = to.len() - from.len();
        assert(r.subrange(j + shift, j + shift + from.len()) =~= content.subrange(j, j + from.len()));
    }
}

/// A substitution whose match or whose replacement would reach the bound or beyond leaves
/// the chunk unchanged.
pub proof fn lemma_bound_blocks_replacement(content: Seq<u8>, from: Seq<u8>, to: Seq<u8>, bound: int, i: int)
    requires
        is_first_occurrence(from, content, i),
        i + from.len() >= bound || i + to.len() >= bound,
    ensures
        replace_first(content, from, to, bound) == content,
{
    lemma_first_occurrence_unique(from, content, i);
}

/// The length marker follows the substitutions: where they left the chunk's length as it
/// was, the marker is not touched; where they changed it by `d`, and the marker declaring
/// `base` is found with room before the bound, the rewritten chunk declares `base + d` where
/// the old declaration stood.
pub proof fn lemma_marker_declares_new_length(
    rules: RuleSetView,
    chunk: Seq<u8>,
    length: int,
    label: Seq<u8>,
    base: nat,
    i: int,
)
    requires
        rules.marker == Some((label, base)),
        is_first_occurrence(marker_text(label, base as int), substituted(rules, chunk, length), i),
        i + marker_text(label, base as int).len() < stripped_length(rules, chunk, length)
            + substitution_delta(rules, chunk, length),
        i + marker_text(label, base + substitution_delta(rules, chunk, length)).len()
            < stripped_length(rules, chunk, length) + substitution_delta(rules, chunk, length),
    ensures
        substitution_delta(rules, chunk, length) == 0 ==> rewritten(rules, chunk, length)
            == substituted(rules, chunk, length),
        occurs_at(
            marker_text(label, base + substitution_delta(rules, chunk, length)),
            rewritten(rules, chunk, length),
            i,
        ),
{
    let s = substituted(rules, chunk, length);
    let old_text = marker_text(label, base as int);
    let new_text = marker_text(label, base + substitution_delta(rules, chunk, length));
    lemma_first_occurrence_unique(old_text, s, i);
    let r = rewritten(rules, chunk, length);
    if substitution_delta(rules, chunk, length) != 0 {
        assert(r == splice(s, i, old_text.len() as int, new_text));
        assert(r.subrange(i, i + new_text.len()) =~= new_text);
    }
}

} // verus!
