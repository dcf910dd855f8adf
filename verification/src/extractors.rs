//! The built-in extractors and their registration.

use vstd::prelude::*;
use crate::plugins::{
    DocumentExtractorRegistry, ExtractorInfo, InfoView, KreuzbergError, lemma_register_new_name, names_unique,
    spec_register,
};
use crate::fictionbook::FictionBookExtractor;
use crate::html::HtmlExtractor;
use crate::hwp::HwpExtractor;
use crate::image::ImageExtractor;
use crate::iwork::keynote::KeynoteExtractor;
use crate::iwork::numbers::NumbersExtractor;
use crate::iwork::pages::PagesExtractor;
use crate::jats::JatsExtractor;
use crate::jupyter::JupyterExtractor;
use crate::latex::LatexExtractor;
use crate::markdown::MarkdownExtractor;
use crate::mdx::MdxExtractor;
use crate::odt::OdtExtractor;
use crate::opml::OpmlExtractor;
use crate::orgmode::OrgModeExtractor;

verus! {

/// The built-in extractors in the order in which they are registered.
pub open spec fn default_descriptors() -> Seq<InfoView> {
    seq![
        MarkdownExtractor::descriptor(),
        ImageExtractor::descriptor(),
        JatsExtractor::descriptor(),
        FictionBookExtractor::descriptor(),
        LatexExtractor::descriptor(),
        JupyterExtractor::descriptor(),
        OrgModeExtractor::descriptor(),
        OpmlExtractor::descriptor(),
        OdtExtractor::descriptor(),
        HwpExtractor::descriptor(),
        PagesExtractor::descriptor(),
        NumbersExtractor::descriptor(),
        KeynoteExtractor::descriptor(),
        MdxExtractor::descriptor(),
        HtmlExtractor::descriptor(),
    ]
}

/// The entries after registering each of `es` in turn.
pub open spec fn register_all(entries: Seq<InfoView>, es: Seq<InfoView>) -> Seq<InfoView>
    decreases es.len(),
{
    if es.len() == 0 {
        entries
    } else {
        spec_register(register_all(entries, es.drop_last()), es.last())
    }
}

/// The descriptions of the built-in extractors, in registration order.
pub fn default_extractor_infos() -> (r: Vec<ExtractorInfo>)
    ensures
        r@.map_values(|e: ExtractorInfo| e@) == default_descriptors(),
{
    let mut v: Vec<ExtractorInfo> = Vec::new();
    v.push(MarkdownExtractor::new().info());
    v.push(ImageExtractor::new().info());
    v.push(JatsExtractor::new().info());
    v.push(FictionBookExtractor::new().info());
    v.push(LatexExtractor::new().info());
    v.push(JupyterExtractor::new().info());
    v.push(OrgModeExtractor::new().info());
    v.push(OpmlExtractor::new().info());
    v.push(OdtExtractor::new().info());
    v.push(HwpExtractor::new().info());
    v.push(PagesExtractor::new().info());
    v.push(NumbersExtractor::new().info());
    v.push(KeynoteExtractor::new().info());
    v.push(MdxExtractor::new().info());
    v.push(HtmlExtractor::new().info());
    assert(v@.map_values(|e: ExtractorInfo| e@) =~= default_descriptors());
    v
}

/// Registers every built-in extractor with `registry`, in order; an extractor of
/// the same name already there is replaced.
pub fn register_default_extractors(registry: &mut DocumentExtractorRegistry) -> (r: Result<(), KreuzbergError>)
    ensures
        r is Ok,
        final(registry)@ == register_all(old(registry)@, default_descriptors()),
{
    let infos = default_extractor_infos();
    let ghost d = default_descriptors();
    let ghost start = registry@;
    let n = infos.len();
    let mut k: usize = 0;
    assert(d.take(0) =~= Seq::<InfoView>::empty());
    while k < n
        invariant
            k <= n == infos@.len() == d.len(),
            infos@.map_values(|e: ExtractorInfo| e@) == d,
            registry@ == register_all(start, d.take(k as int)),
            start == old(registry)@,
            d == default_descriptors(),
        decreases n - k,
    {
        let e = infos[k].duplicate();
        assert(e@ == d[k as int]);
        let _ = registry.register(e);
        assert(d.take(k + 1).drop_last() =~= d.take(k as int));
        k = k + 1;
    }
    assert(d.take(n as int) =~= d);
    Ok(())
}

/// Makes sure the built-in extractors are registered: the first call registers
/// them (`initialized` records that it happened), and any call that finds the
/// registry emptied registers them again.
pub fn ensure_initialized(registry: &mut DocumentExtractorRegistry, initialized: &mut bool) -> (r: Result<
    (),
    KreuzbergError,
>)
    ensures
        r is Ok,
        *final(initialized),
        ({
            let once = if *old(initialized) {
                old(registry)@
            } else {
                register_all(old(registry)@, default_descriptors())
            };
            final(registry)@ == if once.len() == 0 {
                register_all(once, default_descriptors())
            } else {
                once
            }
        }),
{
    if !*initialized {
        let _ = register_default_extractors(registry);
        *initialized = true;
    }
    if registry.is_empty() {
        let _ = register_default_extractors(registry);
    }
    Ok(())
}

/// Registering extractors of distinct names into an empty registry lists them
/// all, in order.
pub proof fn lemma_register_all_fresh(es: Seq<InfoView>)
    requires
        names_unique(es),
    ensures
        register_all(Seq::<InfoView>::empty(), es) == es,
    decreases es.len(),
{
    if es.len() > 0 {
        let front = es.drop_last();
        assert(names_unique(front)) by {
            assert forall|i: int, j: int| 0 <= i < j < front.len() implies front[i].name != front[j].name by {
                assert(front[i] == es[i] && front[j] == es[j]);
            }
        }
        lemma_register_all_fresh(front);
        assert forall|j: int| 0 <= j < front.len() implies (#[trigger] front[j]).name != es.last().name by {
            assert(front[j] == es[j]);
        }
        lemma_register_new_name(front, es.last());
        assert(front.push(es.last()) =~= es);
    }
}

/// The built-in extractors have distinct names, so registering them into an
/// empty registry lists each of them once, in registration order.
pub proof fn lemma_defaults_registered()
    ensures
        names_unique(default_descriptors()),
        register_all(Seq::<InfoView>::empty(), default_descriptors()) == default_descriptors(),
        default_descriptors().len() == 15,
{
    reveal_strlit("markdown-extractor");
    reveal_strlit("image-extractor");
    reveal_strlit("jats-extractor");
    reveal_strlit("fictionbook-extractor");
    reveal_strlit("latex-extractor");
    reveal_strlit("jupyter-extractor");
    reveal_strlit("orgmode-extractor");
    reveal_strlit("opml-extractor");
    reveal_strlit("odt-extractor");
    reveal_strlit("hwp-extractor");
    reveal_strlit("iwork-pages-extractor");
    reveal_strlit("iwork-numbers-extractor");
    reveal_strlit("iwork-keynote-extractor");
    reveal_strlit("mdx-extractor");
    reveal_strlit("html-extractor");
    let d = default_descriptors();
    assert forall|i: int, j: int| 0 <= i < j < d.len() implies d[i].name != d[j].name by {
        if d[i].name.len() == d[j].name.len() {
            assert(d[i].name[0] != d[j].name[0] || d[i].name[1] != d[j].name[1] || d[i].name[2]
                != d[j].name[2] || d[i].name[6] != d[j].name[6]);
        }
    }
    lemma_register_all_fresh(d);
}

/// Registration never leaves the registry empty once something was registered.
pub proof fn lemma_register_all_nonempty(entries: Seq<InfoView>, es: Seq<InfoView>)
    requires
        es.len() > 0,
    ensures
        register_all(entries, es).len() > 0,
{
    let before = register_all(entries, es.drop_last());
    if before.len() == 0 {
        assert(spec_register(before, es.last()) == seq![es.last()]);
    } else {
        lemma_register_len(before, es.last());
    }
}

proof fn lemma_register_len(entries: Seq<InfoView>, e: InfoView)
    ensures
        spec_register(entries, e).len() >= entries.len(),
        spec_register(entries, e).len() > 0,
    decreases entries.len(),
{
    if entries.len() > 0 && entries[0].name != e.name {
        lemma_register_len(entries.drop_first(), e);
    }
}

/// After `ensure_initialized` the registry holds at least one extractor.
pub proof fn lemma_initialized_nonempty(entries: Seq<InfoView>, initialized: bool)
    ensures
        ({
            let once = if initialized {
                entries
            } else {
                register_all(entries, default_descriptors())
            };
            (if once.len() == 0 {
                register_all(once, default_descriptors())
            } else {
                once
            }).len() > 0
        }),
{
    lemma_defaults_registered();
    lemma_register_all_nonempty(entries, default_descriptors());
    lemma_register_all_nonempty(Seq::<InfoView>::empty(), default_descriptors());
}

} // verus!
