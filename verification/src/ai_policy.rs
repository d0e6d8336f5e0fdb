//! AI usage policies and the prompt text that carries them inside a
//! document.
use crate::text::chars_of;
use crate::word_text::is_named;
use vstd::prelude::*;
use vstd::string::StringExecFns;

verus! {

/// How a document may be used by AI systems.
#[derive(Debug)]
pub struct AiPolicy {
    pub id: String,
    pub human_review_required: bool,
    pub training_allowed: bool,
    pub attribution_required: bool,
    pub owner: Option<String>,
}

/// The mathematical value of an [`AiPolicy`].
pub struct PolicyView {
    pub id: Seq<char>,
    pub human_review_required: bool,
    pub training_allowed: bool,
    pub attribution_required: bool,
    pub owner: Option<Seq<char>>,
}

impl View for AiPolicy {
    type V = PolicyView;

    open spec fn view(&self) -> PolicyView {
        PolicyView {
            id: self.id@,
            human_review_required: self.human_review_required,
            training_allowed: self.training_allowed,
            attribution_required: self.attribution_required,
            owner: match self.owner {
                Some(o) => Some(o@),
                None => None,
            },
        }
    }
}

/// The escaped form of one character of a field value: backslash and line
/// feed are written as `\\` and `\n`.
pub open spec fn escaped_field_char(c: char) -> Seq<char> {
    if c == '\\' {
        seq!['\\', '\\']
    } else if c == '\n' {
        seq!['\\', 'n']
    } else {
        seq![c]
    }
}

/// The escaped form of a field value, which holds no line feed.
pub open spec fn escaped_field(s: Seq<char>) -> Seq<char>
    decreases s.len(),
{
    if s.len() == 0 {
        Seq::empty()
    } else {
        escaped_field_char(s[0]) + escaped_field(s.drop_first())
    }
}

/// The value that an escaped field stands for; `None` when a backslash is
/// not followed by `\` or `n`.
pub open spec fn unescaped_field(s: Seq<char>) -> Option<Seq<char>>
    decreases s.len(),
{
    if s.len() == 0 {
        Some(Seq::empty())
    } else if s[0] == '\\' {
        if s.len() < 2 {
            None
        } else if s[1] == '\\' {
            match unescaped_field(s.skip(2)) {
                Some(r) => Some(seq!['\\'] + r),
                None => None,
            }
        } else if s[1] == 'n' {
            match unescaped_field(s.skip(2)) {
                Some(r) => Some(seq!['\n'] + r),
                None => None,
            }
        } else {
            None
        }
    } else {
        match unescaped_field(s.drop_first()) {
            Some(r) => Some(seq![s[0]] + r),
            None => None,
        }
    }
}

/// The text of a flag in a prompt.
pub open spec fn yes_no(b: bool) -> Seq<char> {
    if b {
        "yes"@
    } else {
        "no"@
    }
}

/// One line of a prompt: a label, a value and a line feed.
pub open spec fn prompt_line(label: Seq<char>, value: Seq<char>) -> Seq<char> {
    label + value + "\n"@
}

/// The prompt that states a policy, one field per line; the owner's line
/// only when there is an owner.
pub open spec fn prompt_text(p: PolicyView) -> Seq<char> {
    prompt_line("Policy ID: "@, escaped_field(p.id)) + (prompt_line(
        "Human review required: "@,
        yes_no(p.human_review_required),
    ) + (prompt_line("Training allowed: "@, yes_no(p.training_allowed)) + (prompt_line(
        "Attribution required: "@,
        yes_no(p.attribution_required),
    ) + match p.owner {
        Some(o) => prompt_line("Owner: "@, escaped_field(o)),
        None => Seq::empty(),
    })))
}

/// The position of the first line feed.
pub open spec fn first_line_feed(s: Seq<char>) -> Option<int>
    decreases s.len(),
{
    if s.len() == 0 {
        None
    } else if s[0] == '\n' {
        Some(0)
    } else {
        match first_line_feed(s.drop_first()) {
            Some(i) => Some(i + 1),
            None => None,
        }
    }
}

/// The value of a line that starts with `label`, and the text after the
/// line; `None` when the text does not start with the label or the line
/// does not end.
pub open spec fn line_value(s: Seq<char>, label: Seq<char>) -> Option<(Seq<char>, Seq<char>)> {
    if label.len() <= s.len() && s.take(label.len() as int) == label {
        let body = s.skip(label.len() as int);
        match first_line_feed(body) {
            Some(i) => Some((body.take(i), body.skip(i + 1))),
            None => None,
        }
    } else {
        None
    }
}

/// The flag that prompt text states.
pub open spec fn flag_of(s: Seq<char>) -> Option<bool> {
    if s == "yes"@ {
        Some(true)
    } else if s == "no"@ {
        Some(false)
    } else {
        None
    }
}

/// The owner that the rest of a prompt states: none when nothing is left,
/// else exactly one owner line.
pub open spec fn owner_of(rest: Seq<char>) -> Option<Option<Seq<char>>> {
    if rest.len() == 0 {
        Some(None)
    } else {
        match line_value(rest, "Owner: "@) {
            Some((raw, tail)) => if tail.len() == 0 {
                match unescaped_field(raw) {
                    Some(o) => Some(Some(o)),
                    None => None,
                }
            } else {
                None
            },
            None => None,
        }
    }
}

/// The policy that a prompt states; `None` when the prompt is malformed.
pub open spec fn parsed_prompt(s: Seq<char>) -> Option<PolicyView> {
    match line_value(s, "Policy ID: "@) {
        None => None,
        Some((id_raw, r1)) => match line_value(r1, "Human review required: "@) {
            None => None,
            Some((review, r2)) => match line_value(r2, "Training allowed: "@) {
                None => None,
                Some((training, r3)) => match line_value(r3, "Attribution required: "@) {
                    None => None,
                    Some((attribution, r4)) => match (
                        unescaped_field(id_raw),
                        flag_of(review),
                        flag_of(training),
                        flag_of(attribution),
                        owner_of(r4),
                    ) {
                        (Some(id), Some(h), Some(t), Some(a), Some(owner)) => Some(
                            PolicyView {
                                id,
                                human_review_required: h,
                                training_allowed: t,
                                attribution_required: a,
                                owner,
                            },
                        ),
                        _ => None,
                    },
                },
            },
        },
    }
}

proof fn lemma_escaped_field_append(a: Seq<char>, b: Seq<char>)
    ensures
        escaped_field(a + b) == escaped_field(a) + escaped_field(b),
    decreases a.len(),
{
    if a.len() == 0 {
        assert(a + b =~= b);
    } else {
        assert((a + b).drop_first() =~= a.drop_first() + b);
        lemma_escaped_field_append(a.drop_first(), b);
        assert((a + b)[0] == a[0]);
    }
}

proof fn lemma_escaped_field_round_trip(s: Seq<char>)
    ensures
        unescaped_field(escaped_field(s)) == Some(s),
        !escaped_field(s).contains('\n'),
    decreases s.len(),
{
    if s.len() > 0 {
        lemma_escaped_field_round_trip(s.drop_first());
        let e = escaped_field(s);
        let rest = escaped_field(s.drop_first());
        assert(e == escaped_field_char(s[0]) + rest);
        if s[0] == '\\' || s[0] == '\n' {
            assert(e.skip(2) =~= rest);
        } else {
            assert(e.drop_first() =~= rest);
        }
        assert(s =~= seq![s[0]] + s.drop_first());
        assert forall|i: int| 0 <= i < e.len() implies e[i] != '\n' by {
            if i >= escaped_field_char(s[0]).len() {
                assert(e[i] == rest[i - escaped_field_char(s[0]).len()]);
            }
        }
    }
}

proof fn lemma_first_line_feed(a: Seq<char>, b: Seq<char>)
    requires
        !a.contains('\n'),
    ensures
        first_line_feed(a + "\n"@ + b) == Some(a.len() as int),
    decreases a.len(),
{
    reveal_strlit("\n");
    let s = a + "\n"@ + b;
    if a.len() == 0 {
        assert(s[0] == '\n');
    } else {
        assert(a[0] != '\n') by {
            assert(a.contains(a[0]) || true);
            if a[0] == '\n' {
                assert(a.contains(a[0]));
            }
        }
        assert(!a.drop_first().contains('\n')) by {
            if a.drop_first().contains('\n') {
                let i = choose|i: int| 0 <= i < a.drop_first().len() && a.drop_first()[i] == '\n';
                assert(a[i + 1] == '\n');
            }
        }
        lemma_first_line_feed(a.drop_first(), b);
        assert(s.drop_first() =~= a.drop_first() + "\n"@ + b);
        assert(s[0] == a[0]);
    }
}

proof fn lemma_line_value(label: Seq<char>, value: Seq<char>, rest: Seq<char>)
    requires
        !value.contains('\n'),
    ensures
        line_value(prompt_line(label, value) + rest, label) == Some((value, rest)),
{
    reveal_strlit("\n");
    let s = prompt_line(label, value) + rest;
    assert(s.take(label.len() as int) =~= label);
    let body = s.skip(label.len() as int);
    assert(body =~= value + "\n"@ + rest);
    lemma_first_line_feed(value, rest);
    assert(body.take(value.len() as int) =~= value);
    assert(body.skip(value.len() as int + 1) =~= rest);
}

proof fn lemma_yes_no(b: bool)
    ensures
        !yes_no(b).contains('\n'),
        flag_of(yes_no(b)) == Some(b),
{
    reveal_strlit("yes");
    reveal_strlit("no");
    assert(yes_no(b).len() > 0);
    if yes_no(b).contains('\n') {
        let i = choose|i: int| 0 <= i < yes_no(b).len() && yes_no(b)[i] == '\n';
    }
    assert("no"@ != "yes"@) by {
        assert("no"@.len() != "yes"@.len());
    }
}

/// A policy written as a prompt reads back as the same policy.
pub proof fn law_prompt_round_trip(p: PolicyView)
    ensures
        parsed_prompt(prompt_text(p)) == Some(p),
{
    lemma_escaped_field_round_trip(p.id);
    lemma_yes_no(p.human_review_required);
    lemma_yes_no(p.training_allowed);
    lemma_yes_no(p.attribution_required);
    let owner_part = match p.owner {
        Some(o) => prompt_line("Owner: "@, escaped_field(o)),
        None => Seq::empty(),
    };
    let r4 = owner_part;
    let r3 = prompt_line("Attribution required: "@, yes_no(p.attribution_required)) + r4;
    let r2 = prompt_line("Training allowed: "@, yes_no(p.training_allowed)) + r3;
    let r1 = prompt_line("Human review required: "@, yes_no(p.human_review_required)) + r2;
    lemma_line_value("Policy ID: "@, escaped_field(p.id), r1);
    lemma_line_value("Human review required: "@, yes_no(p.human_review_required), r2);
    lemma_line_value("Training allowed: "@, yes_no(p.training_allowed), r3);
    lemma_line_value("Attribution required: "@, yes_no(p.attribution_required), r4);
    match p.owner {
        Some(o) => {
            lemma_escaped_field_round_trip(o);
            lemma_line_value("Owner: "@, escaped_field(o), Seq::empty());
            assert(prompt_line("Owner: "@, escaped_field(o)) + Seq::<char>::empty() =~= r4);
            reveal_strlit("Owner: ");
            reveal_strlit("\n");
            assert(r4.len() > 0);
        },
        None => {},
    }
}

fn push_escaped_field(out: &mut String, value: &str)
    ensures
        final(out)@ == old(out)@ + escaped_field(value@),
{
    let chars = chars_of(value);
    let mut i: usize = 0;
    assert(chars@.take(0) =~= Seq::<char>::empty());
    while i < chars.len()
        invariant
            i <= chars.len(),
            chars@ == value@,
            out@ == old(out)@ + escaped_field(chars@.take(i as int)),
        decreases chars.len() - i,
    {
        let c = chars[i];
        proof {
            lemma_escaped_field_append(chars@.take(i as int), seq![c]);
            assert(chars@.take(i + 1) =~= chars@.take(i as int) + seq![c]);
            assert(escaped_field(seq![c]) =~= escaped_field_char(c)) by {
                assert(seq![c].drop_first() =~= Seq::<char>::empty());
                assert(escaped_field(Seq::<char>::empty()) == Seq::<char>::empty());
                assert(seq![c][0] == c);
                assert(escaped_field(seq![c]) == escaped_field_char(c) + escaped_field(seq![c].drop_first()));
                assert(escaped_field_char(c) + Seq::<char>::empty() =~= escaped_field_char(c));
            }
        }
        if c == '\\' {
            out.push('\\');
            out.push('\\');
        } else if c == '\n' {
            out.push('\\');
            out.push('n');
        } else {
            out.push(c);
        }
        i = i + 1;
    }
    assert(chars@.take(chars.len() as int) =~= chars@);
}

fn push_line(out: &mut String, label: &str, value: &str)
    ensures
        final(out)@ == old(out)@ + prompt_line(label@, value@),
{
    out.append(label);
    out.append(value);
    out.push('\n');
    proof {
        reveal_strlit("\n");
        assert(final(out)@ =~= old(out)@ + prompt_line(label@, value@));
    }
}

fn yes_no_text(b: bool) -> (s: &'static str)
    ensures
        s@ == yes_no(b),
{
    if b {
        "yes"
    } else {
        "no"
    }
}

impl AiPolicy {
    /// The prompt that states this policy, one field per line.
    pub fn to_prompt(&self) -> (prompt: String)
        ensures
            prompt@ == prompt_text(self@),
    {
        let mut prompt = String::new();
        let mut id = String::new();
        push_escaped_field(&mut id, self.id.as_str());
        push_line(&mut prompt, "Policy ID: ", id.as_str());
        push_line(&mut prompt, "Human review required: ", yes_no_text(self.human_review_required));
        push_line(&mut prompt, "Training allowed: ", yes_no_text(self.training_allowed));
        push_line(&mut prompt, "Attribution required: ", yes_no_text(self.attribution_required));
        let ghost before_owner = prompt@;
        match &self.owner {
            Some(owner) => {
                let mut o = String::new();
                push_escaped_field(&mut o, owner.as_str());
                push_line(&mut prompt, "Owner: ", o.as_str());
            },
            None => {},
        }
        proof {
            assert(prompt@ =~= prompt_text(self@));
        }
        prompt
    }

    /// A copy of this policy.
    pub fn copy(&self) -> (c: AiPolicy)
        ensures
            c@ == self@,
    {
        AiPolicy {
            id: self.id.clone(),
            human_review_required: self.human_review_required,
            training_allowed: self.training_allowed,
            attribution_required: self.attribution_required,
            owner: match &self.owner {
                Some(o) => Some(o.clone()),
                None => None,
            },
        }
    }
}

impl Default for AiPolicy {
    /// The policy with an empty id, nothing required or allowed, and no
    /// owner.
    fn default() -> (p: AiPolicy)
        ensures
            p@.id.len() == 0,
            !p@.human_review_required,
            !p@.training_allowed,
            !p@.attribution_required,
            p@.owner is None,
    {
        AiPolicy {
            id: String::new(),
            human_review_required: false,
            training_allowed: false,
            attribution_required: false,
            owner: None,
        }
    }
}

fn unescape_field(s: &[char], from: usize, to: usize) -> (out: Option<String>)
    requires
        from <= to <= s.len(),
    ensures
        match out {
            Some(v) => unescaped_field(s@.subrange(from as int, to as int)) == Some(v@),
            None => unescaped_field(s@.subrange(from as int, to as int)) is None,
        },
{
    let ghost whole = s@.subrange(from as int, to as int);
    let mut out = String::new();
    let mut i: usize = from;
    assert(whole =~= s@.subrange(i as int, to as int));
    assert(out@ + Seq::<char>::empty() =~= out@);
    while i < to
        invariant
            from <= i <= to <= s.len(),
            whole == s@.subrange(from as int, to as int),
            unescaped_field(whole) == match unescaped_field(s@.subrange(i as int, to as int)) {
                Some(r) => Some(out@ + r),
                None => None::<Seq<char>>,
            },
        decreases to - i,
    {
        let ghost rest = s@.subrange(i as int, to as int);
        assert(rest[0] == s[i as int]);
        if s[i] == '\\' {
            if i + 1 >= to {
                return None;
            }
            assert(rest[1] == s[i + 1]);
            assert(rest.skip(2) =~= s@.subrange(i + 2, to as int));
            if s[i + 1] == '\\' {
                proof {
                    match unescaped_field(rest.skip(2)) {
                        Some(r) => {
                            assert(out@ + (seq!['\\'] + r) =~= out@.push('\\') + r);
                        },
                        None => {},
                    }
                }
                out.push('\\');
            } else if s[i + 1] == 'n' {
                proof {
                    match unescaped_field(rest.skip(2)) {
                        Some(r) => {
                            assert(out@ + (seq!['\n'] + r) =~= out@.push('\n') + r);
                        },
                        None => {},
                    }
                }
                out.push('\n');
            } else {
                return None;
            }
            i = i + 2;
        } else {
            assert(rest.drop_first() =~= s@.subrange(i + 1, to as int));
            proof {
                match unescaped_field(rest.drop_first()) {
                    Some(r) => {
                        assert(out@ + (seq![s[i as int]] + r) =~= out@.push(s[i as int]) + r);
                    },
                    None => {},
                }
            }
            out.push(s[i]);
            i = i + 1;
        }
    }
    assert(s@.subrange(i as int, to as int) =~= Seq::<char>::empty());
    assert(out@ + Seq::<char>::empty() =~= out@);
    Some(out)
}

fn starts_with_at(s: &[char], at: usize, label: &str) -> (found: bool)
    requires
        at <= s.len(),
    ensures
        found == (label@.len() <= s@.skip(at as int).len() && s@.skip(at as int).take(label@.len() as int) == label@),
{
    let l = chars_of(label);
    if l.len() > s.len() - at {
        return false;
    }
    let mut i: usize = 0;
    while i < l.len()
        invariant
            l@ == label@,
            l.len() <= s.len() - at,
            at <= s.len(),
            i <= l.len(),
            forall|j: int| 0 <= j < i ==> s[at + j] == l@[j],
        decreases l.len() - i,
    {
        if s[at + i] != l[i] {
            assert(s@.skip(at as int).take(label@.len() as int)[i as int] != label@[i as int]);
            return false;
        }
        i = i + 1;
    }
    assert(s@.skip(at as int).take(label@.len() as int) =~= label@);
    true
}

fn find_line_feed(s: &[char], from: usize) -> (found: Option<usize>)
    requires
        from <= s.len(),
    ensures
        match found {
            Some(i) => from <= i < s.len() && first_line_feed(s@.skip(from as int)) == Some(i - from),
            None => first_line_feed(s@.skip(from as int)) is None,
        },
{
    let mut i: usize = from;
    while i < s.len()
        invariant
            from <= i <= s.len(),
            first_line_feed(s@.skip(from as int)) == match first_line_feed(s@.skip(i as int)) {
                Some(k) => Some(k + (i - from)),
                None => None::<int>,
            },
        decreases s.len() - i,
    {
        assert(s@.skip(i as int)[0] == s[i as int]);
        assert(s@.skip(i as int).drop_first() =~= s@.skip(i + 1));
        if s[i] == '\n' {
            return Some(i);
        }
        i = i + 1;
    }
    assert(s@.skip(i as int).len() == 0);
    None
}

/// The line of `s` from `at` that starts with `label`: the range of its
/// value and the start of the next line.
fn line_at(s: &[char], at: usize, label: &str) -> (found: Option<(usize, usize, usize)>)
    requires
        at <= s.len(),
    ensures
        match found {
            Some((from, to, next)) => from <= to < next <= s.len() && next == to + 1 && line_value(
                s@.skip(at as int),
                label@,
            ) == Some((s@.subrange(from as int, to as int), s@.skip(next as int))),
            None => line_value(s@.skip(at as int), label@) is None,
        },
{
    if !starts_with_at(s, at, label) {
        return None;
    }
    let from = at + label.unicode_len();
    proof {
        assert(s@.skip(at as int).skip(label@.len() as int) =~= s@.skip(from as int));
    }
    match find_line_feed(s, from) {
        Some(to) => {
            proof {
                assert(s@.skip(from as int).take(to - from) =~= s@.subrange(from as int, to as int));
                assert(s@.skip(from as int).skip(to - from + 1) =~= s@.skip(to + 1));
            }
            Some((from, to, to + 1))
        },
        None => None,
    }
}

fn flag_at(s: &[char], from: usize, to: usize) -> (flag: Option<bool>)
    requires
        from <= to <= s.len(),
    ensures
        flag == flag_of(s@.subrange(from as int, to as int)),
{
    let text = crate::text::string_of_range(s, from, to);
    if is_named(text.as_str(), "yes") {
        Some(true)
    } else if is_named(text.as_str(), "no") {
        Some(false)
    } else {
        None
    }
}

/// Reads the policy that a prompt states; `None` when it is malformed.
pub fn parse_prompt(prompt: &str) -> (policy: Option<AiPolicy>)
    ensures
        match policy {
            Some(p) => parsed_prompt(prompt@) == Some(p@),
            None => parsed_prompt(prompt@) is None,
        },
{
    let s = chars_of(prompt);
    assert(s@.skip(0) =~= prompt@);
    let (id_from, id_to, r1) = match line_at(s.as_slice(), 0, "Policy ID: ") {
        Some(found) => found,
        None => return None,
    };
    let (h_from, h_to, r2) = match line_at(s.as_slice(), r1, "Human review required: ") {
        Some(found) => found,
        None => return None,
    };
    let (t_from, t_to, r3) = match line_at(s.as_slice(), r2, "Training allowed: ") {
        Some(found) => found,
        None => return None,
    };
    let (a_from, a_to, r4) = match line_at(s.as_slice(), r3, "Attribution required: ") {
        Some(found) => found,
        None => return None,
    };
    let id = match unescape_field(s.as_slice(), id_from, id_to) {
        Some(id) => id,
        None => return None,
    };
    let human_review_required = match flag_at(s.as_slice(), h_from, h_to) {
        Some(b) => b,
        None => return None,
    };
    let training_allowed = match flag_at(s.as_slice(), t_from, t_to) {
        Some(b) => b,
        None => return None,
    };
    let attribution_required = match flag_at(s.as_slice(), a_from, a_to) {
        Some(b) => b,
        None => return None,
    };
    let owner = if r4 == s.len() {
        assert(s@.skip(r4 as int).len() == 0);
        None
    } else {
        let (o_from, o_to, r5) = match line_at(s.as_slice(), r4, "Owner: ") {
            Some(found) => found,
            None => return None,
        };
        if r5 != s.len() {
            return None;
        }
        assert(s@.skip(r5 as int).len() == 0);
        match unescape_field(s.as_slice(), o_from, o_to) {
            Some(o) => Some(o),
            None => return None,
        }
    };
    Some(AiPolicy { id, human_review_required, training_allowed, attribution_required, owner })
}

/// The prompt of a policy states each field under its own label, one per
/// line: the escaped id, `yes` or `no` for each of the three flags, and the
/// escaped owner when there is one.
pub proof fn law_prompt_states_each_field(p: PolicyView)
    ensures
        prompt_text(p) == "Policy ID: "@ + escaped_field(p.id) + "\n"@ + ("Human review required: "@ + (if p.human_review_required {
            "yes"@
        } else {
            "no"@
        }) + "\n"@ + ("Training allowed: "@ + (if p.training_allowed {
            "yes"@
        } else {
            "no"@
        }) + "\n"@ + ("Attribution required: "@ + (if p.attribution_required {
            "yes"@
        } else {
            "no"@
        }) + "\n"@ + match p.owner {
            Some(o) => "Owner: "@ + escaped_field(o) + "\n"@,
            None => Seq::<char>::empty(),
        }))),
{
}

/// A prompt read from its text gives each flag the value written under that
/// flag's label, and the id and owner written under theirs.
pub proof fn law_prompt_text_reads_by_label(
    id: Seq<char>,
    human_review_required: bool,
    training_allowed: bool,
    attribution_required: bool,
    owner: Option<Seq<char>>,
)
    ensures
        parsed_prompt(
            "Policy ID: "@ + escaped_field(id) + "\n"@ + ("Human review required: "@ + (if human_review_required {
            "yes"@
        } else {
            "no"@
        }) + "\n"@ + ("Training allowed: "@ + (if training_allowed {
            "yes"@
        } else {
            "no"@
        }) + "\n"@ + ("Attribution required: "@ + (if attribution_required {
            "yes"@
        } else {
            "no"@
        }) + "\n"@ + match owner {
            Some(o) => "Owner: "@ + escaped_field(o) + "\n"@,
            None => Seq::<char>::empty(),
        }))),
        ) == Some(PolicyView { id, human_review_required, training_allowed, attribution_required, owner }),
{
    let p = PolicyView { id, human_review_required, training_allowed, attribution_required, owner };
    law_prompt_states_each_field(p);
    law_prompt_round_trip(p);
}

} // verus!
