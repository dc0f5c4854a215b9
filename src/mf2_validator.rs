//! Checks on parsed MessageFormat 2 messages, and the variables they use.
use vstd::prelude::*;
use vstd::string::StringExecFns;

use crate::i18n_error::I18nError;
use crate::mf2_ast::{
    ComplexBody, ComplexMessage, Declaration, Expression, Message, Operand, Pattern, PatternPart,
    Variant, VariantKey,
};
use crate::text::{owned, str_eq};

verus! {

/// The strings of `v`, as a set.
pub open spec fn set_of(v: Seq<String>) -> Set<Seq<char>> {
    Set::new(|x: Seq<char>| exists|i: int| 0 <= i < v.len() && (#[trigger] v[i])@ == x)
}

/// No string occurs twice in `v`.
pub open spec fn distinct(v: Seq<String>) -> bool {
    forall|i: int, j: int|
        0 <= i < v.len() && 0 <= j < v.len() && i != j ==> (#[trigger] v[i])@ != (#[trigger] v[j])@
}

/// The variable an expression's operand names, if any.
pub open spec fn expression_vars(e: Expression) -> Set<Seq<char>> {
    match e.operand {
        Some(Operand::Variable(n)) => set![n@],
        _ => Set::empty(),
    }
}

/// Variables named by the expressions among `parts`.
pub open spec fn parts_vars(parts: Seq<PatternPart>) -> Set<Seq<char>>
    decreases parts.len(),
{
    if parts.len() == 0 {
        Set::empty()
    } else {
        parts_vars(parts.drop_last()) + match parts.last() {
            PatternPart::Expression(e) => expression_vars(e),
            PatternPart::Text(_) => Set::empty(),
        }
    }
}

/// Variables named by the patterns of `variants`.
pub open spec fn variants_vars(variants: Seq<Variant>) -> Set<Seq<char>>
    decreases variants.len(),
{
    if variants.len() == 0 {
        Set::empty()
    } else {
        variants_vars(variants.drop_last()) + parts_vars(variants.last().pattern.parts@)
    }
}

/// Variables declared by `decls`, and those their expressions name.
pub open spec fn declarations_vars(decls: Seq<Declaration>) -> Set<Seq<char>>
    decreases decls.len(),
{
    if decls.len() == 0 {
        Set::empty()
    } else {
        declarations_vars(decls.drop_last()) + match decls.last() {
            Declaration::Input(d) => set![d.variable@],
            Declaration::Local(d) => set![d.variable@] + expression_vars(d.expression),
        }
    }
}

/// Every variable a message declares or refers to.
pub open spec fn message_vars(m: Message) -> Set<Seq<char>> {
    match m {
        Message::Simple(p) => parts_vars(p.parts@),
        Message::Complex(c) => declarations_vars(c.declarations@) + match c.body {
            ComplexBody::Matcher(mt) => variants_vars(mt.variants@),
            ComplexBody::QuotedPattern(p) => parts_vars(p.parts@),
        },
    }
}

fn add_var(vars: &mut Vec<String>, name: &String)
    requires
        distinct(old(vars)@),
    ensures
        distinct(final(vars)@),
        set_of(final(vars)@) == set_of(old(vars)@).insert(name@),
{
    let mut i: usize = 0;
    while i < vars.len()
        invariant
            i <= vars@.len(),
            vars@ == old(vars)@,
            distinct(vars@),
            forall|k: int| 0 <= k < i ==> (#[trigger] vars@[k])@ != name@,
        decreases vars@.len() - i,
    {
        if str_eq(vars[i].as_str(), name.as_str()) {
            proof {
                assert(set_of(vars@) =~= set_of(vars@).insert(name@));
            }
            return;
        }
        i = i + 1;
    }
    let ghost before = vars@;
    vars.push(owned(name.as_str()));
    proof {
        assert forall|a: int, b: int|
            0 <= a < vars@.len() && 0 <= b < vars@.len() && a != b implies (#[trigger] vars@[a])@
            != (#[trigger] vars@[b])@ by {
            if a < before.len() && b < before.len() {
                assert(vars@[a] == before[a] && vars@[b] == before[b]);
            } else if a < before.len() {
                assert(vars@[a] == before[a]);
            } else {
                assert(vars@[b] == before[b]);
            }
        }
        assert(set_of(vars@) =~= set_of(before).insert(name@)) by {
            assert forall|x: Seq<char>| set_of(vars@).contains(x) implies set_of(before).insert(
                name@,
            ).contains(x) by {
                let i = choose|i: int| 0 <= i < vars@.len() && (#[trigger] vars@[i])@ == x;
                if i < before.len() {
                    assert(before[i] == vars@[i]);
                }
            }
            assert forall|x: Seq<char>| set_of(before).insert(name@).contains(x) implies set_of(
                vars@,
            ).contains(x) by {
                if x == name@ {
                    assert(vars@[before.len() as int]@ == x);
                } else {
                    let i = choose|i: int| 0 <= i < before.len() && (#[trigger] before[i])@ == x;
                    assert(vars@[i] == before[i]);
                }
            }
        }
    }
}

fn add_expression_vars(e: &Expression, vars: &mut Vec<String>)
    requires
        distinct(old(vars)@),
    ensures
        distinct(final(vars)@),
        set_of(final(vars)@) == set_of(old(vars)@) + expression_vars(*e),
{
    match &e.operand {
        Some(Operand::Variable(name)) => {
            add_var(vars, name);
            proof {
                assert(set_of(old(vars)@).insert(name@) =~= set_of(old(vars)@) + set![name@]);
            }
        },
        _ => {
            proof {
                assert(set_of(vars@) =~= set_of(vars@) + Set::empty());
            }
        },
    }
}

fn add_pattern_vars(p: &Pattern, vars: &mut Vec<String>)
    requires
        distinct(old(vars)@),
    ensures
        distinct(final(vars)@),
        set_of(final(vars)@) == set_of(old(vars)@) + parts_vars(p.parts@),
{
    let mut i: usize = 0;
    proof {
        assert(p.parts@.subrange(0, 0) =~= Seq::<PatternPart>::empty());
        assert(set_of(vars@) =~= set_of(vars@) + parts_vars(Seq::<PatternPart>::empty()));
    }
    while i < p.parts.len()
        invariant
            i <= p.parts@.len(),
            distinct(vars@),
            set_of(vars@) == set_of(old(vars)@) + parts_vars(p.parts@.subrange(0, i as int)),
        decreases p.parts@.len() - i,
    {
        proof {
            assert(p.parts@.subrange(0, i + 1).drop_last() =~= p.parts@.subrange(0, i as int));
        }
        match &p.parts[i] {
            PatternPart::Expression(e) => {
                add_expression_vars(e, vars);
            },
            PatternPart::Text(_) => {},
        }
        proof {
            assert(set_of(vars@) =~= set_of(old(vars)@) + parts_vars(p.parts@.subrange(0, i + 1)));
        }
        i = i + 1;
    }
    proof {
        assert(p.parts@.subrange(0, p.parts@.len() as int) =~= p.parts@);
    }
}

/// Every variable that `message` declares or refers to, once each.
pub fn extract_variables(message: &Message) -> (r: Vec<String>)
    ensures
        distinct(r@),
        set_of(r@) == message_vars(*message),
{
    let mut vars: Vec<String> = Vec::new();
    proof {
        assert(set_of(vars@) =~= Set::empty());
    }
    match message {
        Message::Simple(p) => {
            add_pattern_vars(p, &mut vars);
            proof {
                assert(set_of(vars@) =~= message_vars(*message));
            }
        },
        Message::Complex(c) => {
            let mut i: usize = 0;
            proof {
                assert(c.declarations@.subrange(0, 0) =~= Seq::<Declaration>::empty());
            }
            while i < c.declarations.len()
                invariant
                    i <= c.declarations@.len(),
                    distinct(vars@),
                    set_of(vars@) == declarations_vars(c.declarations@.subrange(0, i as int)),
                decreases c.declarations@.len() - i,
            {
                proof {
                    assert(c.declarations@.subrange(0, i + 1).drop_last() =~= c.declarations@.subrange(
                        0,
                        i as int,
                    ));
                }
                let ghost before = set_of(vars@);
                match &c.declarations[i] {
                    Declaration::Input(d) => {
                        add_var(&mut vars, &d.variable);
                        proof {
                            assert(before.insert(d.variable@) =~= before + set![d.variable@]);
                        }
                    },
                    Declaration::Local(d) => {
                        add_var(&mut vars, &d.variable);
                        add_expression_vars(&d.expression, &mut vars);
                        proof {
                            assert(before.insert(d.variable@) + expression_vars(d.expression) =~= before
                                + (set![d.variable@] + expression_vars(d.expression)));
                        }
                    },
                }
                i = i + 1;
            }
            proof {
                assert(c.declarations@.subrange(0, c.declarations@.len() as int) =~= c.declarations@);
            }
            let ghost decl_vars = set_of(vars@);
            match &c.body {
                ComplexBody::Matcher(m) => {
                    let mut k: usize = 0;
                    proof {
                        assert(m.variants@.subrange(0, 0) =~= Seq::<Variant>::empty());
                        assert(set_of(vars@) =~= decl_vars + variants_vars(Seq::<Variant>::empty()));
                    }
                    while k < m.variants.len()
                        invariant
                            k <= m.variants@.len(),
                            distinct(vars@),
                            set_of(vars@) == decl_vars + variants_vars(m.variants@.subrange(0, k as int)),
                        decreases m.variants@.len() - k,
                    {
                        proof {
                            assert(m.variants@.subrange(0, k + 1).drop_last() =~= m.variants@.subrange(
                                0,
                                k as int,
                            ));
                        }
                        add_pattern_vars(&m.variants[k].pattern, &mut vars);
                        proof {
                            assert(set_of(vars@) =~= decl_vars + variants_vars(m.variants@.subrange(0, k + 1)));
                        }
                        k = k + 1;
                    }
                    proof {
                        assert(m.variants@.subrange(0, m.variants@.len() as int) =~= m.variants@);
                        assert(set_of(vars@) =~= message_vars(*message));
                    }
                },
                ComplexBody::QuotedPattern(p) => {
                    add_pattern_vars(p, &mut vars);
                    proof {
                        assert(set_of(vars@) =~= message_vars(*message));
                    }
                },
            }
        },
    }
    vars
}

fn validation_error(message: String) -> (r: I18nError)
    ensures
        r is Mf2Validation,
{
    I18nError::Mf2Validation { message }
}

/// Whether `name` is among `names`.
fn has_name(names: &Vec<String>, name: &str) -> (r: bool)
    ensures
        r == exists|j: int| 0 <= j < names@.len() && (#[trigger] names@[j])@ == name@,
{
    let mut j: usize = 0;
    while j < names.len()
        invariant
            j <= names@.len(),
            forall|k: int| 0 <= k < j ==> (#[trigger] names@[k])@ != name@,
        decreases names@.len() - j,
    {
        if str_eq(names[j].as_str(), name) {
            return true;
        }
        j = j + 1;
    }
    false
}

/// Every error in `errors` is a validation error.
pub open spec fn all_validation(errors: Seq<I18nError>) -> bool {
    forall|k: int| 0 <= k < errors.len() ==> (#[trigger] errors[k]) is Mf2Validation
}

fn report(errors: &mut Vec<I18nError>, message: String)
    requires
        all_validation(old(errors)@),
    ensures
        all_validation(final(errors)@),
        final(errors)@.len() == old(errors)@.len() + 1,
{
    errors.push(validation_error(message));
}

fn validate_expression(e: &Expression, errors: &mut Vec<I18nError>)
    requires
        all_validation(old(errors)@),
    ensures
        all_validation(final(errors)@),
{
    match &e.annotation {
        Some(ann) => {
            let mut seen: Vec<String> = Vec::new();
            let mut i: usize = 0;
            while i < ann.options.len()
                invariant
                    i <= ann.options@.len(),
                    all_validation(errors@),
                decreases ann.options@.len() - i,
            {
                let name = &ann.options[i].name;
                if has_name(&seen, name.as_str()) {
                    let mut m = owned("duplicate option '");
                    m.append(name.as_str());
                    m.append("' in :");
                    m.append(ann.function.as_str());
                    report(errors, m);
                } else {
                    seen.push(owned(name.as_str()));
                }
                i = i + 1;
            }
        },
        None => {},
    }
    if e.operand.is_none() && e.annotation.is_none() {
        report(errors, owned("expression must have an operand or annotation"));
    }
}

fn validate_pattern(p: &Pattern, errors: &mut Vec<I18nError>)
    requires
        all_validation(old(errors)@),
    ensures
        all_validation(final(errors)@),
{
    let mut i: usize = 0;
    while i < p.parts.len()
        invariant
            i <= p.parts@.len(),
            all_validation(errors@),
        decreases p.parts@.len() - i,
    {
        match &p.parts[i] {
            PatternPart::Expression(e) => {
                validate_expression(e, errors);
            },
            PatternPart::Text(_) => {},
        }
        i = i + 1;
    }
}

/// Some variant has one key per selector, all of them `*`.
pub open spec fn has_catch_all(variants: Seq<Variant>, selector_count: nat) -> bool {
    exists|i: int|
        0 <= i < variants.len() && (#[trigger] variants[i]).keys@.len() == selector_count
            && forall|k: int| 0 <= k < variants[i].keys@.len() ==> variants[i].keys@[k] is Wildcard
}

fn all_wildcards(keys: &Vec<VariantKey>) -> (r: bool)
    ensures
        r == forall|k: int| 0 <= k < keys@.len() ==> keys@[k] is Wildcard,
{
    let mut k: usize = 0;
    while k < keys.len()
        invariant
            k <= keys@.len(),
            forall|j: int| 0 <= j < k ==> keys@[j] is Wildcard,
        decreases keys@.len() - k,
    {
        match &keys[k] {
            VariantKey::Wildcard => {},
            VariantKey::Literal(_) => {
                return false;
            },
        }
        k = k + 1;
    }
    true
}

fn catch_all_present(variants: &Vec<Variant>, selector_count: usize) -> (r: bool)
    ensures
        r == has_catch_all(variants@, selector_count as nat),
{
    let mut i: usize = 0;
    while i < variants.len()
        invariant
            i <= variants@.len(),
            forall|j: int|
                0 <= j < i ==> !((#[trigger] variants@[j]).keys@.len() == selector_count && forall|
                    k: int,
                | 0 <= k < variants@[j].keys@.len() ==> variants@[j].keys@[k] is Wildcard),
        decreases variants@.len() - i,
    {
        if variants[i].keys.len() == selector_count && all_wildcards(&variants[i].keys) {
            return true;
        }
        i = i + 1;
    }
    false
}

fn validate_complex(c: &ComplexMessage, errors: &mut Vec<I18nError>)
    requires
        all_validation(old(errors)@),
    ensures
        all_validation(final(errors)@),
        c.body matches ComplexBody::Matcher(m) && !has_catch_all(m.variants@, m.selectors@.len())
            ==> final(errors)@.len() > 0,
{
    let mut declared: Vec<String> = Vec::new();
    let mut i: usize = 0;
    while i < c.declarations.len()
        invariant
            i <= c.declarations@.len(),
            all_validation(errors@),
        decreases c.declarations@.len() - i,
    {
        match &c.declarations[i] {
            Declaration::Input(d) => {
                if has_name(&declared, d.variable.as_str()) {
                    let mut m = owned("duplicate declaration of variable '$");
                    m.append(d.variable.as_str());
                    m.append("''");
                    report(errors, m);
                } else {
                    declared.push(owned(d.variable.as_str()));
                }
            },
            Declaration::Local(d) => {
                validate_expression(&d.expression, errors);
                if has_name(&declared, d.variable.as_str()) {
                    let mut m = owned("duplicate declaration of variable '$");
                    m.append(d.variable.as_str());
                    m.append("''");
                    report(errors, m);
                } else {
                    declared.push(owned(d.variable.as_str()));
                }
            },
        }
        i = i + 1;
    }
    match &c.body {
        ComplexBody::Matcher(m) => {
            let mut s: usize = 0;
            while s < m.selectors.len()
                invariant
                    s <= m.selectors@.len(),
                    all_validation(errors@),
                decreases m.selectors@.len() - s,
            {
                let sel = m.selectors[s].as_str();
                if !has_name(&declared, sel) {
                    let mut msg = owned("selector '$");
                    msg.append(sel);
                    msg.append("' is not declared; add .input {$");
                    msg.append(sel);
                    msg.append(" :...}");
                    report(errors, msg);
                }
                s = s + 1;
            }
            let expected = m.selectors.len();
            let mut v: usize = 0;
            while v < m.variants.len()
                invariant
                    v <= m.variants@.len(),
                    all_validation(errors@),
                decreases m.variants@.len() - v,
            {
                if m.variants[v].keys.len() != expected {
                    let mut msg = owned("variant has ");
                    msg.append(crate::checker::decimal_string(m.variants[v].keys.len()).as_str());
                    msg.append(" keys but ");
                    msg.append(crate::checker::decimal_string(expected).as_str());
                    msg.append(" selectors declared");
                    report(errors, msg);
                }
                validate_pattern(&m.variants[v].pattern, errors);
                v = v + 1;
            }
            if !catch_all_present(&m.variants, expected) {
                report(
                    errors,
                    owned("matcher must include a catch-all variant with all wildcard (*) keys"),
                );
            }
        },
        ComplexBody::QuotedPattern(p) => {
            validate_pattern(p, errors);
        },
    }
}

/// Semantic errors of a parsed message: duplicate declarations or options,
/// undeclared selectors, variants with the wrong number of keys, and a
/// matcher without a catch-all variant.
pub fn validate(message: &Message) -> (r: Vec<I18nError>)
    ensures
        all_validation(r@),
        message matches Message::Complex(c) && (c.body matches ComplexBody::Matcher(m)
            && !has_catch_all(m.variants@, m.selectors@.len())) ==> r@.len() > 0,
{
    let mut errors: Vec<I18nError> = Vec::new();
    match message {
        Message::Simple(p) => validate_pattern(p, &mut errors),
        Message::Complex(c) => validate_complex(c, &mut errors),
    }
    errors
}

} // verus!
