//! The template repertoire: the self-description block a template carries
//! (`<script type="application/json" id="template-info">…</script>`), and
//! which template each name resolves to across the resolution layers,
//! most specific layer first.

use vstd::prelude::*;
use vstd::relations::{sorted_by, total_ordering};
use crate::path_name::{extension_of, file_extension, file_stem, stem_of};
use crate::script::{owned, text_eq};
use crate::text::{chars_of, find_first, match_from, push_str, string_of, trim, trim_span};

verus! {

broadcast use vstd::string::group_string_axioms;

/// Why a catalog request could not be answered.
#[derive(Debug, PartialEq, Eq)]
pub enum CatalogError {
    /// `id="template-info"` with no `>` after it.
    UnterminatedTag,
    /// A `template-info` block with no `</script>` after it.
    UnterminatedBlock,
    /// No layer offers a template of this name.
    TemplateNotFound { name: String },
    /// No layer offers any template.
    NoTemplates,
}

pub enum CatalogErrorModel {
    UnterminatedTag,
    UnterminatedBlock,
    TemplateNotFound { name: Seq<char> },
    NoTemplates,
}

impl View for CatalogError {
    type V = CatalogErrorModel;

    open spec fn view(&self) -> CatalogErrorModel {
        match self {
            CatalogError::UnterminatedTag => CatalogErrorModel::UnterminatedTag,
            CatalogError::UnterminatedBlock => CatalogErrorModel::UnterminatedBlock,
            CatalogError::TemplateNotFound { name } => CatalogErrorModel::TemplateNotFound {
                name: name@,
            },
            CatalogError::NoTemplates => CatalogErrorModel::NoTemplates,
        }
    }
}

impl CatalogError {
    /// The error's message.
    pub fn message(&self) -> (m: String)
        ensures
            m@ == catalog_message(self@),
    {
        match self {
            CatalogError::UnterminatedTag => owned("unterminated template-info tag"),
            CatalogError::UnterminatedBlock => owned("unterminated template-info block"),
            CatalogError::TemplateNotFound { name } => {
                let mut m = owned("template `");
                push_str(&mut m, name.as_str());
                push_str(&mut m, "` not found \u{2014} try `videoeditor templates`");
                m
            },
            CatalogError::NoTemplates => owned("no templates found in any layer"),
        }
    }
}

pub open spec fn catalog_message(e: CatalogErrorModel) -> Seq<char> {
    match e {
        CatalogErrorModel::UnterminatedTag => "unterminated template-info tag"@,
        CatalogErrorModel::UnterminatedBlock => "unterminated template-info block"@,
        CatalogErrorModel::TemplateNotFound { name } => "template `"@ + name
            + "` not found \u{2014} try `videoeditor templates`"@,
        CatalogErrorModel::NoTemplates => "no templates found in any layer"@,
    }
}

pub open spec fn info_marker() -> Seq<char> {
    "id=\"template-info\""@
}

pub open spec fn script_close() -> Seq<char> {
    "</script>"@
}

/// The JSON text of a template's `template-info` block: found by the first
/// `id="template-info"`, running from the first `>` at or after it to the
/// next `</script>`, trimmed. `Ok(None)` where the template has no block.
pub open spec fn template_info_spec(s: Seq<char>) -> Result<Option<Seq<char>>, CatalogErrorModel> {
    match match_from(s, info_marker(), 0) {
        None => Ok(None),
        Some(tag) => match match_from(s.skip(tag), seq!['>'], 0) {
            None => Err(CatalogErrorModel::UnterminatedTag),
            Some(gt) => {
                let start = tag + gt + 1;
                match match_from(s.skip(start), script_close(), 0) {
                    None => Err(CatalogErrorModel::UnterminatedBlock),
                    Some(len) => Ok(Some(trim(s.subrange(start, start + len)))),
                }
            },
        },
    }
}

/// The `template-info` JSON text of a template's HTML source, if it has one.
pub fn template_info_block(html: &str) -> (r: Result<Option<String>, CatalogError>)
    ensures
        match template_info_spec(html@) {
            Ok(None) => r matches Ok(None),
            Ok(Some(b)) => r matches Ok(Some(t)) && t@ == b,
            Err(e) => r matches Err(x) && x@ == e,
        },
{
    let cs = chars_of(html);
    let n = cs.len();
    let marker = chars_of("id=\"template-info\"");
    let gt = chars_of(">");
    let close = chars_of("</script>");
    proof {
        reveal_strlit(">");
    }
    assert(cs@.subrange(0, n as int) =~= html@);
    let tag = match find_first(&cs, 0, n, &marker) {
        None => return Ok(None),
        Some(t) => t,
    };
    assert(cs@.subrange(tag as int, n as int) =~= html@.skip(tag as int));
    assert(gt@ =~= seq!['>']);
    let g = match find_first(&cs, tag, n, &gt) {
        None => return Err(CatalogError::UnterminatedTag),
        Some(g) => g,
    };
    let start = tag + g + 1;
    assert(cs@.subrange(start as int, n as int) =~= html@.skip(start as int));
    let len = match find_first(&cs, start, n, &close) {
        None => return Err(CatalogError::UnterminatedBlock),
        Some(l) => l,
    };
    let (a, b) = trim_span(&cs, start, start + len);
    assert(cs@.subrange(start as int, start + len) =~= html@.subrange(
        start as int,
        start + len,
    ));
    Ok(Some(string_of(&cs, a, b)))
}

/// Code-point lexicographic order on names, the order `str` and
/// `std::path::Path` compare file names in (a prefix comes first).
pub open spec fn lex_le(a: Seq<char>, b: Seq<char>) -> bool
    decreases a.len(),
{
    if a.len() == 0 {
        true
    } else if b.len() == 0 {
        false
    } else if a[0] != b[0] {
        a[0] < b[0]
    } else {
        lex_le(a.drop_first(), b.drop_first())
    }
}

pub open spec fn name_order() -> spec_fn(Seq<char>, Seq<char>) -> bool {
    |a: Seq<char>, b: Seq<char>| lex_le(a, b)
}

proof fn lemma_lex_reflexive(a: Seq<char>)
    ensures
        lex_le(a, a),
    decreases a.len(),
{
    if a.len() > 0 {
        lemma_lex_reflexive(a.drop_first());
    }
}

proof fn lemma_lex_antisymmetric(a: Seq<char>, b: Seq<char>)
    requires
        lex_le(a, b),
        lex_le(b, a),
    ensures
        a == b,
    decreases a.len(),
{
    if a.len() > 0 && b.len() > 0 {
        lemma_lex_antisymmetric(a.drop_first(), b.drop_first());
        assert(a =~= seq![a[0]] + a.drop_first());
        assert(b =~= seq![b[0]] + b.drop_first());
    } else {
        assert(a =~= b);
    }
}

proof fn lemma_lex_transitive(a: Seq<char>, b: Seq<char>, c: Seq<char>)
    requires
        lex_le(a, b),
        lex_le(b, c),
    ensures
        lex_le(a, c),
    decreases a.len(),
{
    if a.len() > 0 && b.len() > 0 && c.len() > 0 && a[0] == b[0] && b[0] == c[0] {
        lemma_lex_transitive(a.drop_first(), b.drop_first(), c.drop_first());
    }
}

proof fn lemma_lex_total(a: Seq<char>, b: Seq<char>)
    ensures
        lex_le(a, b) || lex_le(b, a),
    decreases a.len(),
{
    if a.len() > 0 && b.len() > 0 && a[0] == b[0] {
        lemma_lex_total(a.drop_first(), b.drop_first());
    }
}

/// The name order is a total order.
pub proof fn lemma_name_order_total()
    ensures
        total_ordering(name_order()),
{
    assert forall|x: Seq<char>| #[trigger] name_order()(x, x) by {
        lemma_lex_reflexive(x);
    }
    assert forall|x: Seq<char>, y: Seq<char>|
        #[trigger] name_order()(x, y) && #[trigger] name_order()(y, x) implies x == y by {
        lemma_lex_antisymmetric(x, y);
    }
    assert forall|x: Seq<char>, y: Seq<char>, z: Seq<char>|
        #[trigger] name_order()(x, y) && #[trigger] name_order()(y, z) implies name_order()(
        x,
        z,
    ) by {
        lemma_lex_transitive(x, y, z);
    }
    assert forall|x: Seq<char>, y: Seq<char>|
        #[trigger] name_order()(x, y) || #[trigger] name_order()(y, x) by {
        lemma_lex_total(x, y);
    }
}

fn lex_le_exec(a: &Vec<char>, b: &Vec<char>) -> (r: bool)
    ensures
        r == lex_le(a@, b@),
{
    let mut i: usize = 0;
    assert(a@.skip(0) =~= a@ && b@.skip(0) =~= b@);
    while i < a.len() && i < b.len() && a[i] == b[i]
        invariant
            i <= a@.len(),
            i <= b@.len(),
            lex_le(a@, b@) == lex_le(a@.skip(i as int), b@.skip(i as int)),
        decreases a@.len() - i,
    {
        assert(a@.skip(i as int).drop_first() =~= a@.skip(i + 1));
        assert(b@.skip(i as int).drop_first() =~= b@.skip(i + 1));
        i = i + 1;
    }
    assert(i < a@.len() ==> a@.skip(i as int)[0] == a@[i as int]);
    assert(i < b@.len() ==> b@.skip(i as int)[0] == b@[i as int]);
    if i == a.len() {
        true
    } else if i == b.len() {
        false
    } else {
        a[i] < b[i]
    }
}

proof fn lemma_insert_count<A>(s: Seq<A>, p: int, x: A)
    requires
        0 <= p <= s.len(),
    ensures
        s.insert(p, x).to_multiset() =~= s.to_multiset().insert(x),
{
    broadcast use vstd::seq_lib::group_to_multiset_ensures;
    broadcast use vstd::multiset::group_multiset_axioms;

    let t = s.insert(p, x);
    assert(t.remove(p) =~= s);
    assert(t[p] == x);
    assert(t.to_multiset().remove(x) =~= s.to_multiset());
    assert(t.contains(x));
    assert(t.to_multiset().count(x) > 0);
}

/// `names` in name order.
pub fn sort_names(names: Vec<Vec<char>>) -> (r: Vec<Vec<char>>)
    ensures
        r@.map_values(|v: Vec<char>| v@) == names@.map_values(|v: Vec<char>| v@).sort_by(
            name_order(),
        ),
{
    let ghost input = names@.map_values(|v: Vec<char>| v@);
    let mut out: Vec<Vec<char>> = Vec::new();
    let mut names = names;
    proof {
        lemma_name_order_total();
    }
    let ghost mut taken: Seq<Seq<char>> = seq![];
    assert(input =~= taken + names@.map_values(|v: Vec<char>| v@));
    assert(out@.map_values(|v: Vec<char>| v@) =~= taken);
    while names.len() > 0
        invariant
            input == taken + names@.map_values(|v: Vec<char>| v@),
            sorted_by(out@.map_values(|v: Vec<char>| v@), name_order()),
            out@.map_values(|v: Vec<char>| v@).to_multiset() == taken.to_multiset(),
            total_ordering(name_order()),
        decreases names@.len(),
    {
        let ghost before = names@.map_values(|v: Vec<char>| v@);
        let ghost o = out@.map_values(|v: Vec<char>| v@);
        let x = names.remove(0);
        assert(before =~= seq![x@] + names@.map_values(|v: Vec<char>| v@));
        let mut p: usize = 0;
        while p < out.len() && !lex_le_exec(&x, &out[p])
            invariant
                p <= out@.len(),
                o == out@.map_values(|v: Vec<char>| v@),
                forall|j: int| 0 <= j < p ==> !lex_le(x@, #[trigger] o[j]),
            decreases out@.len() - p,
        {
            p = p + 1;
        }
        let ghost xv = x@;
        out.insert(p, x);
        let ghost n = out@.map_values(|v: Vec<char>| v@);
        assert(n =~= o.insert(p as int, xv));
        proof {
            lemma_insert_count(o, p as int, xv);
            assert forall|i: int, j: int| 0 <= i < j < n.len() implies #[trigger] name_order()(
                n[i],
                n[j],
            ) by {
                if j < p {
                    assert(name_order()(o[i], o[j]));
                } else if i < p && j == p {
                    lemma_lex_total(xv, o[i]);
                } else if i < p {
                    assert(name_order()(o[i], o[j - 1]));
                } else if i == p {
                    assert(lex_le(xv, o[p as int]));
                    if j - 1 > p {
                        assert(name_order()(o[p as int], o[j - 1]));
                        lemma_lex_transitive(xv, o[p as int], o[j - 1]);
                    }
                } else {
                    assert(name_order()(o[i - 1], o[j - 1]));
                }
            }
            taken = taken.push(xv);
            broadcast use vstd::seq_lib::group_to_multiset_ensures;
        }
        assert(input =~= taken + names@.map_values(|v: Vec<char>| v@));
    }
    proof {
        assert(taken =~= input);
        input.lemma_sort_by_ensures(name_order());
        vstd::seq_lib::lemma_sorted_unique(
            out@.map_values(|v: Vec<char>| v@),
            input.sort_by(name_order()),
            name_order(),
        );
    }
    out
}

/// A scene template file: an `.html` whose name does not start with `_`
/// (underscored files are partials).
pub open spec fn is_template_file(name: Seq<char>) -> bool {
    extension_of(name) == Some("html"@) && !(name.len() > 0 && name[0] == '_')
}

/// The template files among a directory's file names, in listing order.
pub open spec fn template_files(files: Seq<Seq<char>>) -> Seq<Seq<char>>
    decreases files.len(),
{
    if files.len() == 0 {
        seq![]
    } else if is_template_file(files.last()) {
        template_files(files.drop_last()).push(files.last())
    } else {
        template_files(files.drop_last())
    }
}

/// A layer's templates in name order, each tagged with the layer's index.
pub open spec fn layer_candidates(layer: int, files: Seq<Seq<char>>) -> Seq<(usize, Seq<char>)> {
    template_files(files).sort_by(name_order()).map_values(|f: Seq<char>| (layer as usize, f))
}

/// Every template of every layer, in the order resolution visits them:
/// layer by layer, most specific first, by name within a layer.
pub open spec fn candidates(layers: Seq<Seq<Seq<char>>>) -> Seq<(usize, Seq<char>)>
    decreases layers.len(),
{
    if layers.len() == 0 {
        seq![]
    } else {
        candidates(layers.drop_last()) + layer_candidates(layers.len() - 1, layers.last())
    }
}

/// A template name and where it resolves: the layer and file that win, and
/// the files of later layers that it shadows.
#[derive(Debug)]
pub struct TemplateEntry {
    pub name: String,
    pub layer: usize,
    pub file: String,
    pub shadowed: Vec<(usize, String)>,
}

pub struct TemplateEntryModel {
    pub name: Seq<char>,
    pub layer: usize,
    pub file: Seq<char>,
    pub shadowed: Seq<(usize, Seq<char>)>,
}

pub open spec fn tagged_view(s: Seq<(usize, String)>) -> Seq<(usize, Seq<char>)> {
    s.map_values(|p: (usize, String)| (p.0, p.1@))
}

impl View for TemplateEntry {
    type V = TemplateEntryModel;

    open spec fn view(&self) -> TemplateEntryModel {
        TemplateEntryModel {
            name: self.name@,
            layer: self.layer,
            file: self.file@,
            shadowed: tagged_view(self.shadowed@),
        }
    }
}

pub open spec fn entries_view(es: Seq<TemplateEntry>) -> Seq<TemplateEntryModel> {
    es.map_values(|e: TemplateEntry| e@)
}

pub open spec fn layers_view(layers: Seq<Vec<String>>) -> Seq<Seq<Seq<char>>> {
    layers.map_values(|l: Vec<String>| l@.map_values(|s: String| s@))
}

/// The first entry at or after `k` that is named `name`.
pub open spec fn find_name(out: Seq<TemplateEntryModel>, name: Seq<char>, k: int) -> Option<int>
    decreases out.len() - k,
{
    if k < 0 || k >= out.len() {
        None
    } else if out[k].name == name {
        Some(k)
    } else {
        find_name(out, name, k + 1)
    }
}

/// First match wins: a template whose name is already resolved is recorded
/// as shadowed by it; a new name resolves to this template.
pub open spec fn discover_step(out: Seq<TemplateEntryModel>, c: (usize, Seq<char>)) -> Seq<
    TemplateEntryModel,
> {
    let name = stem_of(c.1);
    match find_name(out, name, 0) {
        Some(k) => out.update(
            k,
            TemplateEntryModel {
                name: out[k].name,
                layer: out[k].layer,
                file: out[k].file,
                shadowed: out[k].shadowed.push(c),
            },
        ),
        None => out.push(TemplateEntryModel { name, layer: c.0, file: c.1, shadowed: seq![] }),
    }
}

pub open spec fn discover_fold(cs: Seq<(usize, Seq<char>)>) -> Seq<TemplateEntryModel>
    decreases cs.len(),
{
    if cs.len() == 0 {
        seq![]
    } else {
        discover_step(discover_fold(cs.drop_last()), cs.last())
    }
}

/// The repertoire visible from `layers` (each a directory listing).
pub open spec fn discover_spec(layers: Seq<Seq<Seq<char>>>) -> Seq<TemplateEntryModel> {
    discover_fold(candidates(layers))
}

fn is_template_file_exec(name: &str) -> (b: bool)
    ensures
        b == is_template_file(name@),
{
    let ext = file_extension(name);
    let cs = chars_of(name);
    let is_html = match ext {
        Some(e) => text_eq(e.as_str(), "html"),
        None => false,
    };
    is_html && !(cs.len() > 0 && cs[0] == '_')
}

fn layer_template_files(files: &Vec<String>) -> (r: Vec<Vec<char>>)
    ensures
        r@.map_values(|v: Vec<char>| v@) == template_files(files@.map_values(|s: String| s@)),
{
    let ghost fv = files@.map_values(|s: String| s@);
    let mut out: Vec<Vec<char>> = Vec::new();
    let mut i: usize = 0;
    assert(fv.take(0) =~= Seq::<Seq<char>>::empty());
    assert(out@.map_values(|v: Vec<char>| v@) =~= Seq::<Seq<char>>::empty());
    while i < files.len()
        invariant
            i <= files@.len(),
            fv == files@.map_values(|s: String| s@),
            out@.map_values(|v: Vec<char>| v@) == template_files(fv.take(i as int)),
        decreases files@.len() - i,
    {
        assert(fv.take(i + 1).drop_last() =~= fv.take(i as int));
        let f = files[i].as_str();
        if is_template_file_exec(f) {
            let ghost before = out@.map_values(|v: Vec<char>| v@);
            out.push(chars_of(f));
            assert(out@.map_values(|v: Vec<char>| v@) =~= before.push(fv[i as int]));
        }
        i = i + 1;
    }
    assert(fv.take(i as int) =~= fv);
    out
}

proof fn lemma_view_update(es: Seq<TemplateEntry>, k: int, e: TemplateEntry)
    requires
        0 <= k < es.len(),
    ensures
        entries_view(es.remove(k).insert(k, e)) =~= entries_view(es).update(k, e@),
{
    assert(es.remove(k).insert(k, e) =~= es.update(k, e));
}

/// Record template `file` of `layer` in the repertoire `out`.
fn add_candidate(out: &mut Vec<TemplateEntry>, layer: usize, file: String)
    ensures
        entries_view(final(out)@) == discover_step(entries_view(old(out)@), (layer, file@)),
{
    let ghost orig = out@;
    let ghost ov = entries_view(out@);
    let ghost fv0 = file@;
    let name = file_stem(file.as_str());
    let mut k: usize = 0;
    while k < out.len()
        invariant
            k <= out@.len(),
            out@ == orig,
            orig == old(out)@,
            name@ == stem_of(fv0),
            fv0 == file@,
            ov == entries_view(orig),
            find_name(ov, name@, 0) == find_name(ov, name@, k as int),
        decreases out@.len() - k,
    {
        if text_eq(out[k].name.as_str(), name.as_str()) {
            let ghost c = (layer, file@);
            assert(ov[k as int] == orig[k as int]@);
            assert(find_name(ov, name@, k as int) == Some(k as int));
            let mut e = out.remove(k);
            let ghost sh = e.shadowed@;
            e.shadowed.push((layer, file));
            assert(tagged_view(e.shadowed@) =~= tagged_view(sh).push(c));
            proof {
                lemma_view_update(orig, k as int, e);
            }
            out.insert(k, e);
            assert(entries_view(out@) == ov.update(
                k as int,
                TemplateEntryModel {
                    name: ov[k as int].name,
                    layer: ov[k as int].layer,
                    file: ov[k as int].file,
                    shadowed: ov[k as int].shadowed.push(c),
                },
            ));
            return;
        }
        k = k + 1;
    }
    let ghost fv = file@;
    out.push(TemplateEntry { name, layer, file, shadowed: Vec::new() });
    assert(tagged_view(Seq::<(usize, String)>::empty()) =~= Seq::<(usize, Seq<char>)>::empty());
    assert(entries_view(out@) =~= ov.push(
        TemplateEntryModel { name: stem_of(fv), layer, file: fv, shadowed: seq![] },
    ));
}

proof fn lemma_fold_append(a: Seq<(usize, Seq<char>)>, b: Seq<(usize, Seq<char>)>, k: int)
    requires
        0 <= k < b.len(),
    ensures
        discover_fold(a + b.take(k + 1)) == discover_step(discover_fold(a + b.take(k)), b[k]),
{
    assert((a + b.take(k + 1)).drop_last() =~= a + b.take(k));
    assert((a + b.take(k + 1)).last() == b[k]);
}

/// The repertoire visible from the resolution layers, first match wins:
/// `layers[i]` lists the file names in layer `i`'s scene-template
/// directory (most specific layer first, in any order).
pub fn discover(layers: &Vec<Vec<String>>) -> (r: Vec<TemplateEntry>)
    ensures
        entries_view(r@) == discover_spec(layers_view(layers@)),
{
    let ghost lv = layers_view(layers@);
    let mut out: Vec<TemplateEntry> = Vec::new();
    let mut i: usize = 0;
    assert(lv.take(0) =~= Seq::<Seq<Seq<char>>>::empty());
    assert(entries_view(out@) =~= Seq::<TemplateEntryModel>::empty());
    while i < layers.len()
        invariant
            i <= layers@.len(),
            lv == layers_view(layers@),
            entries_view(out@) == discover_fold(candidates(lv.take(i as int))),
        decreases layers@.len() - i,
    {
        let files = layer_template_files(&layers[i]);
        let sorted = sort_names(files);
        let ghost prev = candidates(lv.take(i as int));
        let ghost lc = layer_candidates(i as int, lv[i as int]);
        assert(lv.take(i + 1).drop_last() =~= lv.take(i as int));
        assert(candidates(lv.take(i + 1)) == prev + lc);
        assert(sorted@.map_values(|v: Vec<char>| v@).map_values(|f: Seq<char>| (i, f)) =~= lc);
        let mut k: usize = 0;
        assert(prev + lc.take(0) =~= prev);
        while k < sorted.len()
            invariant
                k <= sorted@.len(),
                lc.len() == sorted@.len(),
                forall|j: int| 0 <= j < lc.len() ==> #[trigger] lc[j] == (i, sorted@[j]@),
                entries_view(out@) == discover_fold(prev + lc.take(k as int)),
            decreases sorted@.len() - k,
        {
            proof {
                lemma_fold_append(prev, lc, k as int);
            }
            assert(lc[k as int] == (i, sorted@[k as int]@));
            let file = string_of(&sorted[k], 0, sorted[k].len());
            assert(file@ =~= sorted@[k as int]@);
            add_candidate(&mut out, i, file);
            k = k + 1;
        }
        assert(lc.take(k as int) =~= lc);
        i = i + 1;
    }
    assert(lv.take(i as int) =~= lv);
    out
}

/// What every prefix of a resolution run keeps: names stay distinct, each
/// entry's files carry its name, shadowed files come from the winner's
/// layer or later ones, and every visited template is accounted for.
pub open spec fn fold_inv(out: Seq<TemplateEntryModel>, cs: Seq<(usize, Seq<char>)>) -> bool {
    &&& forall|i: int, j: int| 0 <= i < j < out.len() ==> out[i].name != out[j].name
    &&& forall|i: int| 0 <= i < out.len() ==> stem_of(#[trigger] out[i].file) == out[i].name
    &&& forall|i: int, k: int|
        0 <= i < out.len() && 0 <= k < out[i].shadowed.len() ==> stem_of(
            #[trigger] out[i].shadowed[k].1,
        ) == out[i].name && out[i].layer <= out[i].shadowed[k].0
    &&& forall|i: int| 0 <= i < out.len() ==> cs.len() > 0 && #[trigger] out[i].layer <= cs.last().0
    &&& forall|c: (usize, Seq<char>)|
        #[trigger] cs.contains(c) ==> exists|i: int|
            0 <= i < out.len() && #[trigger] out[i].name == stem_of(c.1) && ((out[i].layer
                == c.0 && out[i].file == c.1) || out[i].shadowed.contains(c))
}

pub open spec fn layers_ascending(cs: Seq<(usize, Seq<char>)>) -> bool {
    forall|a: int, b: int| 0 <= a < b < cs.len() ==> #[trigger] cs[a].0 <= #[trigger] cs[b].0
}

proof fn lemma_find_name(out: Seq<TemplateEntryModel>, name: Seq<char>, k: int)
    requires
        0 <= k,
    ensures
        match find_name(out, name, k) {
            Some(i) => k <= i < out.len() && out[i].name == name,
            None => forall|i: int| k <= i < out.len() ==> out[i].name != name,
        },
    decreases out.len() - k,
{
    if k < out.len() && out[k].name != name {
        lemma_find_name(out, name, k + 1);
    }
}

#[verifier::spinoff_prover]
#[verifier::rlimit(40)]
proof fn lemma_fold_inv(cs: Seq<(usize, Seq<char>)>)
    requires
        layers_ascending(cs),
    ensures
        fold_inv(discover_fold(cs), cs),
    decreases cs.len(),
{
    if cs.len() > 0 {
        let pre = cs.drop_last();
        let c = cs.last();
        assert(layers_ascending(pre));
        lemma_fold_inv(pre);
        let out = discover_fold(pre);
        let name = stem_of(c.1);
        lemma_find_name(out, name, 0);
        let r = discover_fold(cs);
        assert(r == discover_step(out, c));
        assert forall|i: int| 0 <= i < r.len() implies #[trigger] r[i].layer <= cs.last().0 by {
            if i < out.len() {
                assert(pre.len() > 0 && out[i].layer <= pre.last().0);
                assert(pre.last() == cs[cs.len() - 2]);
            }
        }
        assert forall|x: (usize, Seq<char>)| #[trigger] cs.contains(x) implies exists|i: int|
            0 <= i < r.len() && #[trigger] r[i].name == stem_of(x.1) && ((r[i].layer == x.0
                && r[i].file == x.1) || r[i].shadowed.contains(x)) by {
            let xi = choose|xi: int| 0 <= xi < cs.len() && cs[xi] == x;
            match find_name(out, name, 0) {
                Some(k) => {
                    if xi == cs.len() - 1 {
                        assert(r[k].shadowed.last() == x);
                        assert(r[k].shadowed.contains(x));
                        assert(r[k].name == stem_of(x.1));
                    } else {
                        assert(pre[xi] == x);
                        assert(pre.contains(x));
                        let i = choose|i: int|
                            0 <= i < out.len() && #[trigger] out[i].name == stem_of(x.1) && ((
                            out[i].layer == x.0 && out[i].file == x.1) || out[i].shadowed.contains(
                                x,
                            ));
                        if i == k {
                            if out[i].shadowed.contains(x) {
                                let w = choose|w: int|
                                    0 <= w < out[i].shadowed.len() && out[i].shadowed[w] == x;
                                assert(r[k].shadowed[w] == x);
                            }
                        }
                        assert(r[i].name == stem_of(x.1));
                    }
                },
                None => {
                    if xi == cs.len() - 1 {
                        assert(r[out.len() as int].name == stem_of(x.1));
                    } else {
                        assert(pre[xi] == x);
                        assert(pre.contains(x));
                        let i = choose|i: int|
                            0 <= i < out.len() && #[trigger] out[i].name == stem_of(x.1) && ((
                            out[i].layer == x.0 && out[i].file == x.1) || out[i].shadowed.contains(
                                x,
                            ));
                        assert(r[i] == out[i]);
                    }
                },
            }
        }
        match find_name(out, name, 0) {
            Some(k) => {
                assert(pre.len() > 0 && out[k].layer <= pre.last().0);
                assert(pre.last() == cs[cs.len() - 2]);
                assert(r.len() == out.len());
                assert forall|i: int| 0 <= i < r.len() implies #[trigger] r[i].name == out[i].name
                    && r[i].file == out[i].file && r[i].layer == out[i].layer by {}
                assert forall|i: int, j: int| 0 <= i < j < r.len() implies r[i].name
                    != r[j].name by {
                    assert(r[i].name == out[i].name && r[j].name == out[j].name);
                }
                assert forall|i: int| 0 <= i < r.len() implies stem_of(#[trigger] r[i].file)
                    == r[i].name by {
                    assert(r[i].name == out[i].name && r[i].file == out[i].file);
                }
                assert forall|i: int, j: int| 0 <= i < r.len() && 0 <= j < r[i].shadowed.len()
                    implies stem_of(#[trigger] r[i].shadowed[j].1) == r[i].name && r[i].layer
                    <= r[i].shadowed[j].0 by {
                    if i == k && j == r[i].shadowed.len() - 1 {
                    } else {
                        assert(r[i].shadowed[j] == out[i].shadowed[j]);
                    }
                }
            },
            None => {
                assert(r.len() == out.len() + 1);
                assert forall|i: int| 0 <= i < out.len() implies #[trigger] r[i] == out[i] by {}
                assert forall|i: int, j: int| 0 <= i < j < r.len() implies r[i].name
                    != r[j].name by {
                    if j == out.len() {
                        assert(r[i] == out[i]);
                    } else {
                        assert(r[i] == out[i] && r[j] == out[j]);
                    }
                }
                assert forall|i: int| 0 <= i < r.len() implies stem_of(#[trigger] r[i].file)
                    == r[i].name by {
                    if i < out.len() {
                        assert(r[i] == out[i]);
                    }
                }
                assert forall|i: int, j: int| 0 <= i < r.len() && 0 <= j < r[i].shadowed.len()
                    implies stem_of(#[trigger] r[i].shadowed[j].1) == r[i].name && r[i].layer
                    <= r[i].shadowed[j].0 by {
                    assert(r[i] == out[i]);
                }
            },
        }
    }
}

proof fn lemma_candidates_ascending(layers: Seq<Seq<Seq<char>>>)
    requires
        layers.len() <= usize::MAX,
    ensures
        layers_ascending(candidates(layers)),
        forall|a: int|
            0 <= a < candidates(layers).len() ==> (#[trigger] candidates(layers)[a]).0
                < layers.len(),
    decreases layers.len(),
{
    if layers.len() > 0 {
        lemma_candidates_ascending(layers.drop_last());
        let pre = candidates(layers.drop_last());
        let lc = layer_candidates(layers.len() - 1, layers.last());
        let cs = candidates(layers);
        assert(cs == pre + lc);
        assert forall|a: int| 0 <= a < cs.len() implies (#[trigger] cs[a]).0 < layers.len() by {
            if a >= pre.len() {
                assert(cs[a] == lc[a - pre.len()]);
            } else {
                assert(cs[a] == pre[a]);
            }
        }
        assert forall|a: int, b: int| 0 <= a < b < cs.len() implies #[trigger] cs[a].0
            <= #[trigger] cs[b].0 by {
            if b >= pre.len() {
                assert(cs[b] == lc[b - pre.len()]);
                if a >= pre.len() {
                    assert(cs[a] == lc[a - pre.len()]);
                } else {
                    assert(cs[a] == pre[a]);
                }
            } else {
                assert(cs[a] == pre[a]);
                assert(cs[b] == pre[b]);
            }
        }
    }
}

/// A template name resolves once: no two entries of the repertoire share
/// a name.
pub proof fn lemma_discover_names_unique(layers: Seq<Seq<Seq<char>>>)
    requires
        layers.len() <= usize::MAX,
    ensures
        forall|i: int, j: int|
            0 <= i < j < discover_spec(layers).len() ==> discover_spec(layers)[i].name
                != discover_spec(layers)[j].name,
{
    lemma_candidates_ascending(layers);
    lemma_fold_inv(candidates(layers));
}

/// The most specific layer wins: an entry's file carries its name, and every
/// template it shadows has that name and comes from the same layer or a
/// later one.
pub proof fn lemma_discover_most_specific_wins(layers: Seq<Seq<Seq<char>>>)
    requires
        layers.len() <= usize::MAX,
    ensures
        forall|i: int|
            0 <= i < discover_spec(layers).len() ==> stem_of(
                #[trigger] discover_spec(layers)[i].file,
            ) == discover_spec(layers)[i].name,
        forall|i: int, k: int|
            0 <= i < discover_spec(layers).len() && 0 <= k < discover_spec(
                layers,
            )[i].shadowed.len() ==> stem_of(#[trigger] discover_spec(layers)[i].shadowed[k].1)
                == discover_spec(layers)[i].name && discover_spec(layers)[i].layer
                <= discover_spec(layers)[i].shadowed[k].0,
{
    lemma_candidates_ascending(layers);
    lemma_fold_inv(candidates(layers));
}

proof fn lemma_candidates_contain(layers: Seq<Seq<Seq<char>>>, l: int, f: Seq<char>)
    requires
        layers.len() <= usize::MAX,
        0 <= l < layers.len(),
        template_files(layers[l]).contains(f),
    ensures
        candidates(layers).contains((l as usize, f)),
    decreases layers.len(),
{
    let pre = candidates(layers.drop_last());
    let lc = layer_candidates(layers.len() - 1, layers.last());
    assert(candidates(layers) == pre + lc);
    if l == layers.len() - 1 {
        let tf = template_files(layers.last());
        lemma_name_order_total();
        tf.lemma_sort_by_ensures(name_order());
        broadcast use vstd::seq_lib::group_to_multiset_ensures;

        assert(tf.to_multiset().count(f) > 0);
        assert(tf.sort_by(name_order()).to_multiset().count(f) > 0);
        assert(tf.sort_by(name_order()).contains(f));
        let w = choose|w: int| 0 <= w < tf.sort_by(name_order()).len() && tf.sort_by(name_order())[w] == f;
        assert(lc[w] == (l as usize, f));
        assert((pre + lc)[pre.len() + w] == (l as usize, f));
    } else {
        assert(layers.drop_last()[l] == layers[l]);
        lemma_candidates_contain(layers.drop_last(), l, f);
        let w = choose|w: int| 0 <= w < pre.len() && pre[w] == (l as usize, f);
        assert((pre + lc)[w] == (l as usize, f));
    }
}

/// Nothing visible is lost: every template of every layer is either the
/// one its name resolves to or one that resolution records as shadowed.
pub proof fn lemma_discover_covers_every_template(layers: Seq<Seq<Seq<char>>>, l: int, f: Seq<char>)
    requires
        layers.len() <= usize::MAX,
        0 <= l < layers.len(),
        template_files(layers[l]).contains(f),
    ensures
        exists|i: int|
            0 <= i < discover_spec(layers).len() && #[trigger] discover_spec(layers)[i].name
                == stem_of(f) && ((discover_spec(layers)[i].layer == l && discover_spec(
                layers,
            )[i].file == f) || discover_spec(layers)[i].shadowed.contains((l as usize, f))),
{
    lemma_candidates_ascending(layers);
    lemma_fold_inv(candidates(layers));
    lemma_candidates_contain(layers, l, f);
    let c = (l as usize, f);
    assert(candidates(layers).contains(c));
    let r = discover_spec(layers);
    let i = choose|i: int|
        0 <= i < r.len() && #[trigger] r[i].name == stem_of(c.1) && ((r[i].layer == c.0
            && r[i].file == c.1) || r[i].shadowed.contains(c));
    assert(r[i].name == stem_of(f));
}

/// Which entries `videoeditor preview` renders: the one named `template`,
/// or, with no name, all of them.
pub fn preview_targets(entries: &Vec<TemplateEntry>, template: Option<&str>) -> (r: Result<
    Vec<usize>,
    CatalogError,
>)
    ensures
        match template {
            Some(n) => match find_name(entries_view(entries@), n@, 0) {
                Some(k) => r matches Ok(v) && v@.len() == 1 && v@[0] == k,
                None => r matches Err(e) && e@ == (CatalogErrorModel::TemplateNotFound {
                    name: n@,
                }),
            },
            None => if entries@.len() == 0 {
                r matches Err(e) && e@ is NoTemplates
            } else {
                r matches Ok(v) && v@ == Seq::new(entries@.len(), |i: int| i as usize)
            },
        },
{
    let ghost ev = entries_view(entries@);
    match template {
        Some(n) => {
            let mut k: usize = 0;
            while k < entries.len()
                invariant
                    k <= entries@.len(),
                    template == Some(n),
                    ev == entries_view(entries@),
                    find_name(ev, n@, 0) == find_name(ev, n@, k as int),
                decreases entries@.len() - k,
            {
                assert(ev[k as int] == entries@[k as int]@);
                if text_eq(entries[k].name.as_str(), n) {
                    assert(find_name(ev, n@, k as int) == Some(k as int));
                    let mut v: Vec<usize> = Vec::new();
                    v.push(k);
                    assert(v@ =~= seq![k]);
                    return Ok(v);
                }
                k = k + 1;
            }
            Err(CatalogError::TemplateNotFound { name: owned(n) })
        },
        None => {
            if entries.len() == 0 {
                return Err(CatalogError::NoTemplates);
            }
            let mut v: Vec<usize> = Vec::new();
            let mut k: usize = 0;
            while k < entries.len()
                invariant
                    k <= entries@.len(),
                    v@ == Seq::new(k as nat, |i: int| i as usize),
                decreases entries@.len() - k,
            {
                v.push(k);
                assert(v@ =~= Seq::new((k + 1) as nat, |i: int| i as usize));
                k = k + 1;
            }
            Ok(v)
        },
    }
}

/// `n` spaces.
pub open spec fn spaces(n: nat) -> Seq<char> {
    Seq::new(n, |i: int| ' ')
}

/// One data-key line of `videoeditor templates`: the key left-aligned in
/// a 28-character column, then its description.
pub open spec fn key_line_spec(key: Seq<char>, doc: Seq<char>) -> Seq<char> {
    let pad: nat = if key.len() < 28 {
        (28 - key.len()) as nat
    } else {
        0
    };
    "    "@ + key + spaces(pad) + " "@ + doc
}

pub fn key_line(key: &str, doc: &str) -> (r: String)
    ensures
        r@ == key_line_spec(key@, doc@),
{
    let mut r = owned("    ");
    push_str(&mut r, key);
    let n = chars_of(key).len();
    let mut k = n;
    let ghost before = r@;
    while k < 28
        invariant
            n <= k <= 28 || (k == n && n >= 28),
            n == key@.len(),
            r@ == before + spaces((k - n) as nat),
        decreases 28 - k,
    {
        r.push(' ');
        assert(spaces((k + 1 - n) as nat) =~= spaces((k - n) as nat).push(' '));
        k = k + 1;
    }
    push_str(&mut r, " ");
    push_str(&mut r, doc);
    r
}

/// `str::split(sep)`: the pieces between separators, empty ones included.
pub open spec fn split_char(s: Seq<char>, sep: char) -> Seq<Seq<char>>
    decreases s.len(),
{
    if s.len() == 0 {
        seq![seq![]]
    } else {
        let ps = split_char(s.drop_last(), sep);
        if s.last() == sep {
            ps.push(seq![])
        } else {
            ps.update(ps.len() - 1, ps.last().push(s.last()))
        }
    }
}

proof fn lemma_split_char_nonempty(s: Seq<char>, sep: char)
    ensures
        split_char(s, sep).len() >= 1,
    decreases s.len(),
{
    if s.len() > 0 {
        lemma_split_char_nonempty(s.drop_last(), sep);
    }
}

/// The pieces kept from a list: trimmed when `trimmed`, and only those
/// that are not empty.
pub open spec fn kept_pieces(ps: Seq<Seq<char>>, trimmed: bool) -> Seq<Seq<char>>
    decreases ps.len(),
{
    if ps.len() == 0 {
        seq![]
    } else {
        let p = if trimmed {
            trim(ps.last())
        } else {
            ps.last()
        };
        if p.len() > 0 {
            kept_pieces(ps.drop_last(), trimmed).push(p)
        } else {
            kept_pieces(ps.drop_last(), trimmed)
        }
    }
}

/// The non-empty pieces of `s` between `sep`s (trimmed when `trimmed`).
pub fn pieces(s: &str, sep: char, trimmed: bool) -> (r: Vec<String>)
    ensures
        r@.map_values(|x: String| x@) == kept_pieces(split_char(s@, sep), trimmed),
{
    let cs = chars_of(s);
    let mut out: Vec<String> = Vec::new();
    let mut start: usize = 0;
    let mut i: usize = 0;
    let ghost mut done: Seq<Seq<char>> = seq![];
    assert(cs@.take(0) =~= Seq::<char>::empty());
    assert(split_char(cs@.take(0), sep) =~= done.push(cs@.subrange(0, 0)));
    while i < cs.len()
        invariant
            start <= i <= cs@.len(),
            cs@ == s@,
            split_char(cs@.take(i as int), sep) == done.push(cs@.subrange(start as int, i as int)),
            out@.map_values(|x: String| x@) == kept_pieces(done, trimmed),
        decreases cs@.len() - i,
    {
        assert(cs@.take(i + 1).drop_last() =~= cs@.take(i as int));
        assert(cs@.take(i + 1).last() == cs@[i as int]);
        proof {
            lemma_split_char_nonempty(cs@.take(i as int), sep);
        }
        if cs[i] == sep {
            let ghost piece = cs@.subrange(start as int, i as int);
            let (a, b) = if trimmed {
                trim_span(&cs, start, i)
            } else {
                (start, i)
            };
            let ghost before = out@.map_values(|x: String| x@);
            if b > a {
                out.push(string_of(&cs, a, b));
                assert(out@.map_values(|x: String| x@) =~= before.push(cs@.subrange(a as int, b as int)));
            }
            assert(done.push(piece).drop_last() =~= done);
            let ghost prev = split_char(cs@.take(i as int), sep);
            assert(split_char(cs@.take(i + 1), sep) == prev.push(seq![]));
            proof {
                done = done.push(piece);
            }
            start = i + 1;
            assert(cs@.subrange(start as int, i + 1) =~= Seq::<char>::empty());
            assert(split_char(cs@.take(i + 1), sep) =~= done.push(cs@.subrange(start as int, i + 1)));
        } else {
            let ghost prev = split_char(cs@.take(i as int), sep);
            assert(split_char(cs@.take(i + 1), sep) == prev.update(
                prev.len() - 1,
                prev.last().push(cs@[i as int]),
            ));
            assert(prev.last() == cs@.subrange(start as int, i as int));
            assert(cs@.subrange(start as int, i as int).push(cs@[i as int]) =~= cs@.subrange(
                start as int,
                i + 1,
            ));
            assert(split_char(cs@.take(i + 1), sep) =~= done.push(cs@.subrange(start as int, i + 1)));
        }
        i = i + 1;
    }
    assert(cs@.take(i as int) =~= cs@);
    let ghost piece = cs@.subrange(start as int, i as int);
    let (a, b) = if trimmed {
        trim_span(&cs, start, i)
    } else {
        (start, i)
    };
    let ghost before = out@.map_values(|x: String| x@);
    assert(done.push(piece).drop_last() =~= done);
    if b > a {
        out.push(string_of(&cs, a, b));
        assert(out@.map_values(|x: String| x@) =~= before.push(cs@.subrange(a as int, b as int)));
    }
    out
}

/// `Path::join` of two paths written with `/`: an absolute `rel` replaces
/// `base`.
pub open spec fn join_path(base: Seq<char>, rel: Seq<char>) -> Seq<char> {
    if rel.len() > 0 && rel[0] == '/' {
        rel
    } else if base.len() == 0 {
        rel
    } else if base.last() == '/' {
        base + rel
    } else {
        base + seq!['/'] + rel
    }
}

pub fn join(base: &str, rel: &str) -> (r: String)
    ensures
        r@ == join_path(base@, rel@),
{
    let b = chars_of(base);
    let rc = chars_of(rel);
    if rc.len() > 0 && rc[0] == '/' {
        return owned(rel);
    }
    if b.len() == 0 {
        return owned(rel);
    }
    let mut r = owned(base);
    if b[b.len() - 1] != '/' {
        r.push('/');
    }
    push_str(&mut r, rel);
    r
}

/// The template resolution layers, most specific first: the episode's own
/// directory, the packs its frontmatter declares (comma-separated, relative
/// to the episode), the directories of `$VIDEOEDITOR_PACK_PATH`
/// (colon-separated), and the built-ins.
pub open spec fn template_layers_spec(
    episode: Seq<char>,
    packs: Option<Seq<char>>,
    pack_path: Option<Seq<char>>,
    builtin: Seq<char>,
) -> Seq<Seq<char>> {
    seq![episode] + match packs {
        Some(p) => kept_pieces(split_char(p, ','), true).map_values(
            |d: Seq<char>| join_path(episode, d),
        ),
        None => seq![],
    } + match pack_path {
        Some(pp) => kept_pieces(split_char(pp, ':'), false),
        None => seq![],
    } + seq![builtin]
}

pub fn template_layers(
    episode: &str,
    packs: Option<&str>,
    pack_path: Option<&str>,
    builtin: &str,
) -> (r: Vec<String>)
    ensures
        r@.map_values(|x: String| x@) == template_layers_spec(
            episode@,
            match packs {
                Some(p) => Some(p@),
                None => None,
            },
            match pack_path {
                Some(p) => Some(p@),
                None => None,
            },
            builtin@,
        ),
{
    let mut out: Vec<String> = Vec::new();
    out.push(owned(episode));
    let ghost first = out@.map_values(|x: String| x@);
    assert(first =~= seq![episode@]);
    let ghost declared: Seq<Seq<char>> = match packs {
        Some(p) => kept_pieces(split_char(p@, ','), true).map_values(
            |d: Seq<char>| join_path(episode@, d),
        ),
        None => seq![],
    };
    match packs {
        Some(p) => {
            let ds = pieces(p, ',', true);
            let mut k: usize = 0;
            while k < ds.len()
                invariant
                    k <= ds@.len(),
                    ds@.map_values(|x: String| x@) == kept_pieces(split_char(p@, ','), true),
                    declared == kept_pieces(split_char(p@, ','), true).map_values(
                        |d: Seq<char>| join_path(episode@, d),
                    ),
                    out@.map_values(|x: String| x@) == first + declared.take(k as int),
                decreases ds@.len() - k,
            {
                let ghost before = out@.map_values(|x: String| x@);
                let j = join(episode, ds[k].as_str());
                let ghost jv = j@;
                out.push(j);
                assert(out@.map_values(|x: String| x@) =~= before.push(jv));
                assert(declared[k as int] == join_path(episode@, ds@[k as int]@));
                assert(out@.map_values(|x: String| x@) =~= first + declared.take(k + 1));
                k = k + 1;
            }
            assert(declared.take(k as int) =~= declared);
        },
        None => {
            assert(out@.map_values(|x: String| x@) =~= first + declared);
        },
    }
    let ghost second = out@.map_values(|x: String| x@);
    match pack_path {
        Some(pp) => {
            let ps = pieces(pp, ':', false);
            let mut k: usize = 0;
            while k < ps.len()
                invariant
                    k <= ps@.len(),
                    out@.map_values(|x: String| x@) == second + ps@.map_values(
                        |x: String| x@,
                    ).take(k as int),
                decreases ps@.len() - k,
            {
                let ghost before = out@.map_values(|x: String| x@);
                let o = owned(ps[k].as_str());
                let ghost ov = o@;
                out.push(o);
                assert(out@.map_values(|x: String| x@) =~= before.push(ov));
                assert(ov == ps@.map_values(|x: String| x@)[k as int]);
                assert(out@.map_values(|x: String| x@) =~= second + ps@.map_values(
                    |x: String| x@,
                ).take(k + 1));
                k = k + 1;
            }
            assert(ps@.map_values(|x: String| x@).take(k as int) =~= ps@.map_values(
                |x: String| x@,
            ));
        },
        None => {},
    }
    let ghost third = out@.map_values(|x: String| x@);
    out.push(owned(builtin));
    assert(out@.map_values(|x: String| x@) =~= third.push(builtin@));
    out
}

/// Resolution runs from the most specific layer to the least: the episode
/// itself first, then the declared packs in the order written, and the
/// built-ins last.
pub proof fn lemma_layers_most_specific_first(
    episode: Seq<char>,
    packs: Option<Seq<char>>,
    pack_path: Option<Seq<char>>,
    builtin: Seq<char>,
)
    ensures
        template_layers_spec(episode, packs, pack_path, builtin).len() >= 2,
        template_layers_spec(episode, packs, pack_path, builtin)[0] == episode,
        template_layers_spec(episode, packs, pack_path, builtin).last() == builtin,
        packs matches Some(p) ==> forall|i: int|
            0 <= i < kept_pieces(split_char(p, ','), true).len() ==> template_layers_spec(
                episode,
                packs,
                pack_path,
                builtin,
            )[1 + i] == join_path(episode, #[trigger] kept_pieces(split_char(p, ','), true)[i]),
{
    let l = template_layers_spec(episode, packs, pack_path, builtin);
    if let Some(p) = packs {
        let ds = kept_pieces(split_char(p, ','), true);
        let declared = ds.map_values(|d: Seq<char>| join_path(episode, d));
        assert forall|i: int| 0 <= i < ds.len() implies l[1 + i] == join_path(
            episode,
            #[trigger] ds[i],
        ) by {
            assert(declared[i] == join_path(episode, ds[i]));
        }
    }
}

/// Every non-empty piece of `$VIDEOEDITOR_PACK_PATH` is a layer, in order,
/// right after the declared packs (whether or not any are declared) and
/// before the built-ins; nothing else stands between.
pub proof fn lemma_pack_path_always_layered(
    episode: Seq<char>,
    packs: Option<Seq<char>>,
    pack_path: Option<Seq<char>>,
    builtin: Seq<char>,
)
    ensures
        ({
            let l = template_layers_spec(episode, packs, pack_path, builtin);
            let d: int = match packs {
                Some(p) => kept_pieces(split_char(p, ','), true).len() as int,
                None => 0,
            };
            let pp = match pack_path {
                Some(x) => kept_pieces(split_char(x, ':'), false),
                None => seq![],
            };
            &&& l.len() == d + pp.len() + 2
            &&& forall|i: int| 0 <= i < pp.len() ==> #[trigger] l[1 + d + i] == pp[i]
        }),
{
}

/// A name resolves to its most specific layer: no template of that name
/// sits in a layer more specific than the one it resolves to.
pub proof fn lemma_discover_resolves_to_most_specific(
    layers: Seq<Seq<Seq<char>>>,
    i: int,
    l: int,
    f: Seq<char>,
)
    requires
        layers.len() <= usize::MAX,
        0 <= i < discover_spec(layers).len(),
        0 <= l < layers.len(),
        template_files(layers[l]).contains(f),
        stem_of(f) == discover_spec(layers)[i].name,
    ensures
        discover_spec(layers)[i].layer <= l,
{
    let r = discover_spec(layers);
    lemma_discover_covers_every_template(layers, l, f);
    lemma_discover_names_unique(layers);
    lemma_discover_most_specific_wins(layers);
    let j = choose|j: int|
        0 <= j < r.len() && #[trigger] r[j].name == stem_of(f) && ((r[j].layer == l && r[j].file
            == f) || r[j].shadowed.contains((l as usize, f)));
    assert(j == i) by {
        if j != i {
            if j < i {
                assert(r[j].name != r[i].name);
            } else {
                assert(r[i].name != r[j].name);
            }
        }
    }
    if !(r[i].layer == l && r[i].file == f) {
        let k = choose|k: int| 0 <= k < r[i].shadowed.len() && r[i].shadowed[k] == (l as usize, f);
        assert(stem_of(r[i].shadowed[k].1) == r[i].name);
        assert(r[i].layer <= r[i].shadowed[k].0);
    }
}

} // verus!
