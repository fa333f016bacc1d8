use vstd::prelude::*;

verus! {

/// How a binding's fragments are applied to a matched element.
#[derive(Clone, Copy, Debug, PartialEq, Eq, Structural)]
pub enum Operation {
    /// Set the element's inner content to the fragments.
    Replace,
    /// Insert the fragments after the element's inner content.
    Append,
    /// Insert the fragments before the element's inner content.
    Prepend,
    /// Insert the fragments before the element's opening tag.
    Before,
    /// Insert the fragments after the element's closing tag.
    After,
}

/// Mathematical view of a fragment.
pub struct FragmentModel {
    pub reference: Seq<char>,
    pub html: Seq<char>,
}

/// Mathematical view of a binding: a selector, an operation and the
/// fragments in manifest order.
pub struct BindingModel {
    pub selector: Seq<char>,
    pub op: Operation,
    pub fragments: Seq<FragmentModel>,
}

/// One piece of markup contributed by a binding.
pub struct Component {
    /// Opaque identifier of the fragment; informational only.
    pub _ref: String,
    /// Raw markup, inserted as is.
    pub html: String,
}

impl View for Component {
    type V = FragmentModel;

    open spec fn view(&self) -> FragmentModel {
        FragmentModel { reference: self._ref@, html: self.html@ }
    }
}

/// A binding: the selector it targets (`name`), the operation and the
/// ordered fragments.
pub struct ComponentList {
    pub name: String,
    pub op: Operation,
    pub components: Vec<Component>,
}

impl View for ComponentList {
    type V = BindingModel;

    open spec fn view(&self) -> BindingModel {
        BindingModel {
            selector: self.name@,
            op: self.op,
            fragments: self.components@.map_values(|c: Component| c@),
        }
    }
}

/// A parsed manifest: the ordered bindings.
pub struct Page {
    pub name: String,
    pub selectors: Vec<ComponentList>,
}

impl View for Page {
    type V = Seq<BindingModel>;

    open spec fn view(&self) -> Seq<BindingModel> {
        self.selectors@.map_values(|b: ComponentList| b@)
    }
}

/// The fragments' markup joined by a single newline, in order.
pub open spec fn joined_html(fragments: Seq<FragmentModel>) -> Seq<char>
    decreases fragments.len(),
{
    if fragments.len() == 0 {
        Seq::empty()
    } else if fragments.len() == 1 {
        fragments[0].html
    } else {
        joined_html(fragments.drop_last()) + seq!['\n'] + fragments.last().html
    }
}

impl Page {
    /// An empty manifest with the given name.
    pub fn new(_name: String) -> (r: Page)
        ensures
            r.name == _name,
            r@ == Seq::<BindingModel>::empty(),
    {
        let r = Page { name: _name, selectors: Vec::new() };
        assert(r@ =~= Seq::<BindingModel>::empty());
        r
    }
}

impl ComponentList {
    /// A binding for the selector `_name` with no fragments, replacing
    /// inner content.
    pub fn new(_name: String) -> (r: ComponentList)
        ensures
            r.name == _name,
            r@.op == Operation::Replace,
            r@.fragments == Seq::<FragmentModel>::empty(),
    {
        let r = ComponentList { name: _name, op: Operation::Replace, components: Vec::new() };
        assert(r@.fragments =~= Seq::<FragmentModel>::empty());
        r
    }

    /// The fragments' markup joined by newlines: the blob that every match
    /// of this binding receives.
    pub fn joined(&self) -> (r: String)
        ensures
            r@ == joined_html(self@.fragments),
    {
        let mut out = String::new();
        let n = self.components.len();
        let mut i: usize = 0;
        while i < n
            invariant
                n == self.components@.len(),
                i <= n,
                out@ == joined_html(self@.fragments.take(i as int)),
            decreases n - i,
        {
            let ghost fs = self@.fragments;
            assert(fs.take(i as int + 1).drop_last() =~= fs.take(i as int));
            let ghost prev = out@;
            proof { reveal_strlit("\n"); }
            assert(fs[i as int].html == self.components@[i as int].html@);
            if i > 0 {
                out.append("\n");
            }
            out.append(self.components[i].html.as_str());
            assert(fs.take(i as int + 1).last() == fs[i as int]);
            if i == 0 {
                assert(out@ =~= joined_html(fs.take(1)));
            } else {
                assert(joined_html(fs.take(i as int + 1)) == prev + seq!['\n'] + fs[i as int].html);
                assert(out@ =~= joined_html(fs.take(i as int + 1)));
            }
            i = i + 1;
        }
        assert(self@.fragments.take(n as int) =~= self@.fragments);
        out
    }
}

} // verus!
