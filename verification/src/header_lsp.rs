//! Where the public names of a module are declared, and how they are documented.

use vstd::prelude::*;
use crate::ast::{Decl, NodeId, TypeConstructor};
use crate::table::{put, Table};
use crate::text::text_eq;
use crate::token::Span;
use crate::values::Dup;

verus! {

/// Where the public names of a module are declared, and how they are documented.
pub struct HeaderLspInfo {
    /// The functions with a signature.
    pub defs: Table<String, (NodeId, Span)>,
    pub constructors: Table<String, (NodeId, Span)>,
    pub docs: Table<String, Vec<String>>,
}

#[verifier::ext_equal]
pub struct HeaderLspModel {
    pub defs: Seq<(Seq<char>, (NodeId, Span))>,
    pub constructors: Seq<(Seq<char>, (NodeId, Span))>,
    pub docs: Seq<(Seq<char>, Seq<Seq<char>>)>,
}

impl DeepView for HeaderLspInfo {
    type V = HeaderLspModel;

    open spec fn deep_view(&self) -> HeaderLspModel {
        HeaderLspModel {
            defs: self.defs.order(),
            constructors: self.constructors.order(),
            docs: self.docs.order(),
        }
    }
}

impl Dup for HeaderLspInfo {
    fn dup(&self) -> (r: Self) {
        HeaderLspInfo {
            defs: self.defs.dup(),
            constructors: self.constructors.dup(),
            docs: self.docs.dup(),
        }
    }
}

/// The info with the doc comment of a name, if it has one.
pub open spec fn with_doc(
    info: HeaderLspModel,
    name: Seq<char>,
    doc: Seq<Seq<char>>,
) -> HeaderLspModel {
    if doc.len() == 0 {
        info
    } else {
        HeaderLspModel { docs: put(info.docs, name, doc), ..info }
    }
}

pub open spec fn with_ctor_place(
    ctors: Seq<(Seq<char>, (NodeId, Span))>,
    v: TypeConstructor,
) -> Seq<(Seq<char>, (NodeId, Span))> {
    put(ctors, v.name@, (v.id, v.span))
}

/// The places of the constructors of a type.
pub open spec fn with_ctor_places(
    acc: Seq<(Seq<char>, (NodeId, Span))>,
    items: Seq<TypeConstructor>,
) -> Seq<(Seq<char>, (NodeId, Span))>
    decreases items.len(),
{
    if items.len() == 0 {
        acc
    } else {
        with_ctor_place(with_ctor_places(acc, items.drop_last()), items.last())
    }
}

/// The info with what a declaration says, if it is public.
pub open spec fn with_lsp_decl(info: HeaderLspModel, decl: Decl) -> HeaderLspModel {
    match decl {
        Decl::FunSignature { id, public: true, name, name_span, doc, .. } => with_doc(
            HeaderLspModel { defs: put(info.defs, name@, (id, name_span)), ..info },
            name@,
            doc.deep_view(),
        ),
        Decl::TypeDef { public: true, name, variants, doc, .. } => {
            let documented = with_doc(info, name@, doc.deep_view());
            HeaderLspModel {
                constructors: with_ctor_places(documented.constructors, variants@),
                ..documented
            }
        },
        Decl::TypeAlias { public: true, name, doc, .. } => with_doc(info, name@, doc.deep_view()),
        Decl::EffectDef { public: true, name, doc, .. } => with_doc(info, name@, doc.deep_view()),
        Decl::HandlerDef { public: true, name, doc, .. } => with_doc(info, name@, doc.deep_view()),
        Decl::TraitDef { public: true, name, doc, .. } => with_doc(info, name@, doc.deep_view()),
        Decl::RecordDef { id, public: true, name, name_span, doc, .. } => with_doc(
            HeaderLspModel { constructors: put(info.constructors, name@, (id, name_span)), ..info },
            name@,
            doc.deep_view(),
        ),
        _ => info,
    }
}

pub open spec fn with_lsp_decls(acc: HeaderLspModel, items: Seq<Decl>) -> HeaderLspModel
    decreases items.len(),
{
    if items.len() == 0 {
        acc
    } else {
        with_lsp_decl(with_lsp_decls(acc, items.drop_last()), items.last())
    }
}

/// Where the public names of a program are declared, and how they are documented.
pub open spec fn header_lsp_info(program: Seq<Decl>) -> HeaderLspModel {
    with_lsp_decls(
        HeaderLspModel { defs: Seq::empty(), constructors: Seq::empty(), docs: Seq::empty() },
        program,
    )
}

fn insert_doc(info: &mut HeaderLspInfo, name: &str, doc: &Vec<String>)
    ensures
        final(info).deep_view() == with_doc(old(info).deep_view(), name@, doc.deep_view()),
{
    assert(doc.deep_view().len() == doc.len());
    if doc.len() != 0 {
        info.docs.insert(name.to_owned(), doc.dup());
    }
}

fn add_ctor_places(acc: &mut Table<String, (NodeId, Span)>, items: &Vec<TypeConstructor>)
    ensures
        final(acc).order() == with_ctor_places(old(acc).order(), items@),
{
    let ghost a0 = acc.order();
    let ghost all = items@;
    let mut i: usize = 0;
    assert(all.take(0) =~= Seq::empty());
    while i < items.len()
        invariant
            i <= items.len(),
            all == items@,
            acc.order() == with_ctor_places(a0, all.take(i as int)),
        decreases items.len() - i,
    {
        proof {
            assert(all.take(i + 1).drop_last() =~= all.take(i as int));
            assert(all.take(i + 1).last() == all[i as int]);
        }
        acc.insert(items[i].name.clone(), (items[i].id, items[i].span));
        i = i + 1;
    }
    assert(all.take(i as int) =~= all);
}

fn add_lsp_decls(acc: &mut HeaderLspInfo, items: &Vec<Decl>)
    ensures
        final(acc).deep_view() == with_lsp_decls(old(acc).deep_view(), items@),
{
    let ghost a0 = acc.deep_view();
    let ghost all = items@;
    let mut i: usize = 0;
    assert(all.take(0) =~= Seq::empty());
    while i < items.len()
        invariant
            i <= items.len(),
            all == items@,
            acc.deep_view() == with_lsp_decls(a0, all.take(i as int)),
        decreases items.len() - i,
    {
        proof {
            assert(all.take(i + 1).drop_last() =~= all.take(i as int));
            assert(all.take(i + 1).last() == all[i as int]);
        }
        match &items[i] {
            Decl::FunSignature { id, public: true, name, name_span, doc, .. } => {
                acc.defs.insert(name.clone(), (*id, *name_span));
                insert_doc(acc, name.as_str(), doc);
            },
            Decl::TypeDef { public: true, name, variants, doc, .. } => {
                insert_doc(acc, name.as_str(), doc);
                add_ctor_places(&mut acc.constructors, variants);
            },
            Decl::TypeAlias { public: true, name, doc, .. } => {
                insert_doc(acc, name.as_str(), doc);
            },
            Decl::EffectDef { public: true, name, doc, .. } => {
                insert_doc(acc, name.as_str(), doc);
            },
            Decl::HandlerDef { public: true, name, doc, .. } => {
                insert_doc(acc, name.as_str(), doc);
            },
            Decl::TraitDef { public: true, name, doc, .. } => {
                insert_doc(acc, name.as_str(), doc);
            },
            Decl::RecordDef { id, public: true, name, name_span, doc, .. } => {
                acc.constructors.insert(name.clone(), (*id, *name_span));
                insert_doc(acc, name.as_str(), doc);
            },
            _ => {},
        }
        i = i + 1;
    }
    assert(all.take(i as int) =~= all);
}

/// Where the public names of a program are declared, and how they are documented.
pub fn collect_header_lsp_info(program: &Vec<Decl>) -> (r: HeaderLspInfo)
    ensures
        r.deep_view() == header_lsp_info(program@),
{
    let mut info = HeaderLspInfo {
        defs: Table::new(),
        constructors: Table::new(),
        docs: Table::new(),
    };
    add_lsp_decls(&mut info, program);
    info
}

/// The program of a module, if it is at hand.
pub open spec fn program_of(
    programs: Seq<(String, Vec<Decl>)>,
    module: Seq<char>,
) -> Option<Seq<Decl>>
    decreases programs.len(),
{
    if programs.len() == 0 {
        None
    } else if programs.first().0@ == module {
        Some(programs.first().1@)
    } else {
        program_of(programs.drop_first(), module)
    }
}

fn find_program<'a>(
    programs: &'a Vec<(String, Vec<Decl>)>,
    module: &str,
) -> (r: Option<&'a Vec<Decl>>)
    ensures
        match r {
            Some(program) => program_of(programs@, module@) == Some(program@),
            None => program_of(programs@, module@) is None,
        },
{
    let mut i: usize = 0;
    assert(programs@.skip(0) =~= programs@);
    while i < programs.len()
        invariant
            i <= programs.len(),
            program_of(programs@, module@) == program_of(programs@.skip(i as int), module@),
        decreases programs.len() - i,
    {
        proof {
            assert(programs@.skip(i as int).first() == programs@[i as int]);
            assert(programs@.skip(i as int).drop_first() =~= programs@.skip(i + 1));
        }
        if text_eq(programs[i].0.as_str(), module) {
            return Some(&programs[i].1);
        }
        i = i + 1;
    }
    None
}

/// The info of the modules whose programs are at hand.
pub open spec fn with_module_info(
    programs: Seq<(String, Vec<Decl>)>,
    infos: Seq<(Seq<char>, HeaderLspModel)>,
    module: Seq<char>,
) -> Seq<(Seq<char>, HeaderLspModel)> {
    match program_of(programs, module) {
        Some(program) => put(infos, module, header_lsp_info(program)),
        None => infos,
    }
}

pub open spec fn with_module_infos(
    programs: Seq<(String, Vec<Decl>)>,
    acc: Seq<(Seq<char>, HeaderLspModel)>,
    items: Seq<Seq<char>>,
) -> Seq<(Seq<char>, HeaderLspModel)>
    decreases items.len(),
{
    if items.len() == 0 {
        acc
    } else {
        with_module_info(
            programs,
            with_module_infos(programs, acc, items.drop_last()),
            items.last(),
        )
    }
}

fn add_module_infos(
    programs: &Vec<(String, Vec<Decl>)>,
    acc: &mut Table<String, HeaderLspInfo>,
    items: &Vec<String>,
)
    ensures
        final(acc).order() == with_module_infos(programs@, old(acc).order(), items.deep_view()),
{
    let ghost a0 = acc.order();
    let ghost all = items.deep_view();
    let mut i: usize = 0;
    assert(all.take(0) =~= Seq::empty());
    while i < items.len()
        invariant
            i <= items.len(),
            all == items.deep_view(),
            acc.order() == with_module_infos(programs@, a0, all.take(i as int)),
        decreases items.len() - i,
    {
        proof {
            assert(all.take(i + 1).drop_last() =~= all.take(i as int));
            assert(all.take(i + 1).last() == all[i as int]);
        }
        if let Some(program) = find_program(programs, items[i].as_str()) {
            acc.insert(items[i].clone(), collect_header_lsp_info(program));
        }
        i = i + 1;
    }
    assert(all.take(i as int) =~= all);
}

/// The info of the modules whose programs are at hand.
pub fn active_header_lsp_info(
    modules: &Vec<String>,
    programs: &Vec<(String, Vec<Decl>)>,
) -> (r: Table<
    String,
    HeaderLspInfo,
>)
    ensures
        r.order() == with_module_infos(programs@, Seq::empty(), modules.deep_view()),
{
    let mut infos: Table<String, HeaderLspInfo> = Table::new();
    add_module_infos(programs, &mut infos, modules);
    infos
}

/// Private declarations leave no trace.
pub proof fn private_names_are_not_told(info: HeaderLspModel, decl: Decl)
    requires
        match decl {
            Decl::FunSignature { public, .. } => !public,
            Decl::TypeDef { public, .. } => !public,
            Decl::TypeAlias { public, .. } => !public,
            Decl::RecordDef { public, .. } => !public,
            Decl::TraitDef { public, .. } => !public,
            Decl::EffectDef { public, .. } => !public,
            Decl::HandlerDef { public, .. } => !public,
            _ => true,
        },
    ensures
        with_lsp_decl(info, decl) == info,
{
}

} // verus!
