use vstd::prelude::*;
use vstd::utf8::encode_utf8;
use crate::manifest::{joined_html, BindingModel, ComponentList, Operation, Page};
use lol_html::html_content::{ContentType, Element};
use lol_html::{ElementContentHandlers, Settings};
use std::borrow::Cow;

verus! {

/// What the rewriter applies at every element that `selector` matches:
/// the operation, with the binding's joined fragment markup.
pub struct Rule {
    pub selector: String,
    pub op: Operation,
    pub html: String,
}

impl View for Rule {
    type V = (Seq<char>, Operation, Seq<char>);

    open spec fn view(&self) -> (Seq<char>, Operation, Seq<char>) {
        (self.selector@, self.op, self.html@)
    }
}

/// Composition failed as a whole: the rewriter reported an error.
#[derive(Clone, Copy, Debug, PartialEq, Eq, Structural)]
pub enum ComposeError {
    Rewrite,
}

/// A machine limit on selectors: the most opening brackets (`(`, `[`,
/// `{`) a selector may hold. Selector parsing recurses once per nested
/// group and each level takes a few kilobytes of stack, so unbounded
/// nesting would overflow it; 128 levels stay well within a one-megabyte
/// stack.
pub const MAX_SELECTOR_NESTING: u64 = 128;

/// Whether a byte is an opening bracket: `(`, `[` or `{`.
pub open spec fn is_opening_bracket(b: u8) -> bool {
    b == 40u8 || b == 91u8 || b == 123u8
}

/// The number of opening-bracket bytes in `b`.
pub open spec fn opening_brackets(b: Seq<u8>) -> nat
    decreases b.len(),
{
    if b.len() == 0 {
        0
    } else {
        opening_brackets(b.drop_last()) + if is_opening_bracket(b.last()) {
            1nat
        } else {
            0nat
        }
    }
}

/// Whether a selector holds at most `MAX_SELECTOR_NESTING` opening
/// brackets in its UTF-8 text. Every block the CSS tokenizer opens starts
/// with one of these characters, and ASCII bytes in UTF-8 stand only for
/// themselves, so this bounds the parser's nesting from above whatever the
/// tokenizer makes of escapes, strings and comments.
pub open spec fn selector_shallow(s: Seq<char>) -> bool {
    opening_brackets(encode_utf8(s)) <= MAX_SELECTOR_NESTING as nat
}

/// Whether a binding's selector is used: within the machine limit on
/// brackets (`selector_shallow`), and accepted by lol_html.
pub open spec fn selector_usable(s: Seq<char>) -> bool {
    selector_shallow(s) && selector_ok(s)
}

/// Tests whether a selector holds at most `MAX_SELECTOR_NESTING` opening
/// brackets.
pub fn selector_nesting_ok(s: &str) -> (r: bool)
    ensures
        r == selector_shallow(s@),
{
    let b = s.as_bytes();
    let mut i: usize = 0;
    let mut count: usize = 0;
    assert(b@.take(0) =~= Seq::<u8>::empty());
    while i < b.len()
        invariant
            i <= b@.len(),
            count <= i,
            count as nat == opening_brackets(b@.take(i as int)),
        decreases b@.len() - i,
    {
        assert(b@.take(i as int + 1).drop_last() =~= b@.take(i as int));
        assert(b@.take(i as int + 1).last() == b@[i as int]);
        let c = b[i];
        if c == 40u8 || c == 91u8 || c == 123u8 {
            count = count + 1;
        }
        i = i + 1;
    }
    assert(b@.take(i as int) =~= b@);
    count as u64 <= MAX_SELECTOR_NESTING
}

/// Whether lol_html accepts the text as a selector.
pub uninterp spec fn selector_ok(s: Seq<char>) -> bool;

/// Relies on lol_html's `Selector` parsing (its `FromStr` impl): it accepts
/// or rejects the text, and the outcome depends on the text alone. The
/// parser recurses once per nested group without a limit of its own, so
/// only text within `MAX_SELECTOR_NESTING` opening brackets is handed to it.
#[verifier::external_body]
fn selector_compiles(s: &str) -> (r: bool)
    requires
        selector_shallow(s@),
    ensures
        r == selector_ok(s@),
{
    s.parse::<lol_html::Selector>().is_ok()
}

/// The document that lol_html produces from `html` when each rule's
/// operation is registered, in order, for its selector; `None` where the
/// rewriter reports an error.
pub uninterp spec fn rewritten(html: Seq<char>, rules: Seq<(Seq<char>, Operation, Seq<char>)>) -> Option<Seq<char>>;

/// Relies on `lol_html::rewrite_str` with one element handler per rule, in
/// rule order. A handler calls the `Element` method of the rule's operation
/// (`set_inner_content`, `append`, `prepend`, `before`, `after`) with the
/// rule's markup as HTML. The outcome depends on the input and the rules
/// alone. Every selector must be shallow and parse, since it is parsed
/// here again.
#[verifier::external_body]
fn rewrite_html(html: &str, rules: &Vec<Rule>) -> (r: Option<String>)
    requires
        forall|i: int| 0 <= i < rules@.len() ==> selector_usable(#[trigger] rules@[i].selector@),
    ensures
        match r {
            Some(o) => rewritten(html@, rules@.map_values(|x: Rule| x@)) == Some(o@),
            None => rewritten(html@, rules@.map_values(|x: Rule| x@)) is None,
        },
{
    let settings = rules.iter().fold(Settings::new(), |s, r| {
        let (op, blob, t) = (r.op, r.html.clone(), ContentType::Html);
        let handler = ElementContentHandlers::default().element(move |el: &mut Element| {
            match op {
                Operation::Replace => el.set_inner_content(&blob, t),
                Operation::Append => el.append(&blob, t),
                Operation::Prepend => el.prepend(&blob, t),
                Operation::Before => el.before(&blob, t),
                Operation::After => el.after(&blob, t),
            }
            Ok(())
        });
        s.append_element_content_handler((Cow::Owned(r.selector.parse().unwrap()), handler))
    });
    lol_html::rewrite_str(html, settings).ok()
}

/// The rule a binding gives: its selector, operation and joined markup.
pub open spec fn rule_of(b: BindingModel) -> (Seq<char>, Operation, Seq<char>) {
    (b.selector, b.op, joined_html(b.fragments))
}

/// The rules of the bindings whose selectors are usable, in manifest order.
pub open spec fn rules_of(bs: Seq<BindingModel>) -> Seq<(Seq<char>, Operation, Seq<char>)>
    decreases bs.len(),
{
    if bs.len() == 0 {
        Seq::empty()
    } else if selector_usable(bs.last().selector) {
        rules_of(bs.drop_last()).push(rule_of(bs.last()))
    } else {
        rules_of(bs.drop_last())
    }
}

/// What composing a manifest into a document yields: `None` is a failure
/// of the whole composition. Without a usable binding the document passes
/// through unchanged.
pub open spec fn composed(html: Seq<char>, page: Seq<BindingModel>) -> Option<Seq<char>> {
    if rules_of(page).len() == 0 {
        Some(html)
    } else {
        rewritten(html, rules_of(page))
    }
}

/// A binding whose selector does not compile (or exceeds the bracket limit) is
/// skipped: the other bindings give the same rules, and so the same output,
/// as they do without it.
pub proof fn lemma_invalid_binding_skipped(html: Seq<char>, page: Seq<BindingModel>, i: int)
    requires
        0 <= i < page.len(),
        !selector_usable(page[i].selector),
    ensures
        rules_of(page) == rules_of(page.remove(i)),
        composed(html, page) == composed(html, page.remove(i)),
    decreases page.len(),
{
    if i == page.len() - 1 {
        assert(page.remove(i) =~= page.drop_last());
    } else {
        lemma_invalid_binding_skipped(html, page.drop_last(), i);
        assert(page.remove(i).drop_last() =~= page.drop_last().remove(i));
        assert(page.remove(i).last() == page.last());
    }
}

/// A manifest of one binding whose selector is usable hands the rewriter
/// exactly one rule: that selector and operation, with the fragments'
/// markup joined by newlines.
pub proof fn lemma_single_binding_rule(b: BindingModel)
    requires
        selector_usable(b.selector),
    ensures
        rules_of(seq![b]) == seq![(b.selector, b.op, joined_html(b.fragments))],
{
    assert(seq![b].drop_last() =~= Seq::<BindingModel>::empty());
    assert(seq![b].last() == b);
    assert(rules_of(Seq::<BindingModel>::empty()) == Seq::<(Seq<char>, Operation, Seq<char>)>::empty());
    assert(rules_of(seq![b]) =~= seq![(b.selector, b.op, joined_html(b.fragments))]);
}

/// Applies a manifest to HTML documents.
pub struct Renderer {
    fondu_page: Page,
}

impl View for Renderer {
    type V = Seq<BindingModel>;

    closed spec fn view(&self) -> Seq<BindingModel> {
        self.fondu_page@
    }
}

impl Renderer {
    /// A renderer for the given manifest.
    pub fn new(fondu_page: Page) -> (r: Renderer)
        ensures
            r@ == fondu_page@,
    {
        Renderer { fondu_page }
    }

    /// One rule per binding whose selector is usable, in manifest order;
    /// each binding's fragments are joined once.
    fn setup_rules(&self) -> (r: Vec<Rule>)
        ensures
            r@.map_values(|x: Rule| x@) == rules_of(self@),
            forall|i: int| 0 <= i < r@.len() ==> selector_usable(#[trigger] r@[i].selector@),
    {
        let lists = &self.fondu_page.selectors;
        let ghost bs = self@;
        let mut out: Vec<Rule> = Vec::new();
        let mut i: usize = 0;
        assert(bs.take(0) =~= Seq::<BindingModel>::empty());
        assert(out@.map_values(|x: Rule| x@) =~= Seq::<(Seq<char>, Operation, Seq<char>)>::empty());
        while i < lists.len()
            invariant
                bs == lists@.map_values(|b: ComponentList| b@),
                i <= lists@.len(),
                out@.map_values(|x: Rule| x@) == rules_of(bs.take(i as int)),
                forall|k: int| 0 <= k < out@.len() ==> selector_usable(#[trigger] out@[k].selector@),
            decreases lists@.len() - i,
        {
            let b: &ComponentList = &lists[i];
            assert(bs.take(i as int + 1).drop_last() =~= bs.take(i as int));
            assert(bs.take(i as int + 1).last() == b@);
            if selector_nesting_ok(b.name.as_str()) && selector_compiles(b.name.as_str()) {
                let ghost prev = out@;
                let rule = Rule { selector: b.name.clone(), op: b.op, html: b.joined() };
                out.push(rule);
                assert(out@.map_values(|x: Rule| x@) =~= prev.map_values(|x: Rule| x@).push(rule@));
            }
            i = i + 1;
        }
        assert(bs.take(i as int) =~= bs);
        out
    }

    /// Composes the manifest into `src_body`: every binding whose selector
    /// is usable applies its operation at each element it matches. Without
    /// such a binding the document is returned unchanged. Fails as a whole
    /// when the rewriter does.
    pub fn render(&mut self, src_body: &str) -> (r: Result<String, ComposeError>)
        ensures
            final(self)@ == old(self)@,
            rules_of(old(self)@).len() == 0 ==> (r matches Ok(o) && o@ == src_body@),
            match r {
                Ok(o) => composed(src_body@, old(self)@) == Some(o@),
                Err(e) => composed(src_body@, old(self)@) is None,
            },
    {
        let rules = self.setup_rules();
        if rules.len() == 0 {
            return Ok(String::from_str(src_body));
        }
        match rewrite_html(src_body, &rules) {
            Some(o) => Ok(o),
            None => Err(ComposeError::Rewrite),
        }
    }
}

} // verus!
