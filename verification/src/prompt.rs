//! The system prompt for each working mode and intelligence tier, and the
//! model catalog that the multi-agent prompt lists.

use vstd::prelude::*;
use crate::keys::Mode;
use crate::keys::TIER_COUNT;
use crate::text::chars_of;
use crate::text::has_prefix;
use crate::text::occurs_at_chars;
use crate::text::string_from_chars;

verus! {

/// `s` with every occurrence of `pat` replaced by `rep`, occurrences found
/// from the left without overlap (`str::replace`).
pub open spec fn replace_all(s: Seq<char>, pat: Seq<char>, rep: Seq<char>) -> Seq<char>
    decreases s.len(),
{
    if s.len() == 0 {
        seq![]
    } else if pat.len() > 0 && has_prefix(s, pat) {
        rep + replace_all(s.skip(pat.len() as int), pat, rep)
    } else {
        seq![s[0]] + replace_all(s.drop_first(), pat, rep)
    }
}

/// Replaces every occurrence of a non-empty pattern.
pub fn replace_text(s: &str, pat: &str, rep: &str) -> (r: String)
    requires
        pat@.len() > 0,
    ensures
        r@ == replace_all(s@, pat@, rep@),
{
    let sv = chars_of(s);
    let pv = chars_of(pat);
    let rv = chars_of(rep);
    let ghost full = s@;
    let mut out: Vec<char> = Vec::new();
    let mut i: usize = 0;
    assert(full.skip(0) =~= full);
    while i < sv.len()
        invariant
            sv@ == full,
            pv@ == pat@,
            rv@ == rep@,
            pv@.len() > 0,
            i <= sv@.len(),
            out@ + replace_all(full.skip(i as int), pat@, rep@) == replace_all(full, pat@, rep@),
        decreases sv@.len() - i,
    {
        let ghost rest = full.skip(i as int);
        let ghost before = out@;
        let hit = pv.len() <= sv.len() - i && occurs_at_chars(sv.as_slice(), pv.as_slice(), i);
        if hit {
            assert(rest.take(pat@.len() as int) =~= full.subrange(i as int, i + pat@.len()));
            assert(has_prefix(rest, pat@));
            let mut j: usize = 0;
            while j < rv.len()
                invariant
                    j <= rv@.len(),
                    out@ == before + rv@.take(j as int),
                decreases rv@.len() - j,
            {
                out.push(rv[j]);
                j = j + 1;
                assert(out@ =~= before + rv@.take(j as int));
            }
            assert(rv@.take(rv@.len() as int) =~= rv@);
            assert(rest.skip(pat@.len() as int) =~= full.skip(i + pv.len()));
            assert(before + (rep@ + replace_all(full.skip(i + pv.len()), pat@, rep@)) =~= out@ + replace_all(
                full.skip(i + pv.len()),
                pat@,
                rep@,
            ));
            i = i + pv.len();
        } else {
            if pv.len() <= sv.len() - i {
                assert(rest.take(pat@.len() as int) =~= full.subrange(i as int, i + pat@.len()));
            }
            assert(!has_prefix(rest, pat@));
            out.push(sv[i]);
            assert(rest.drop_first() =~= full.skip(i + 1));
            assert(before + (seq![sv@[i as int]] + replace_all(full.skip(i + 1), pat@, rep@)) =~= out@
                + replace_all(full.skip(i + 1), pat@, rep@));
            i = i + 1;
        }
    }
    assert(out@ + seq![] =~= out@);
    string_from_chars(out.as_slice())
}

/// A model offered in the catalog.
pub struct CatalogModel {
    pub id: String,
    pub display: String,
    /// "text", "vision" or "image".
    pub category: String,
    pub strength: String,
}

/// The catalog line of a model.
pub open spec fn catalog_line(m: CatalogModel) -> Seq<char> {
    "- **"@ + m.display@ + "** (`"@ + m.id@ + "`): "@ + m.strength@ + "\n"@
}

/// The catalog lines of the models of the given categories, in order.
pub open spec fn catalog_lines(ms: Seq<CatalogModel>, cats: Seq<Seq<char>>) -> Seq<char>
    decreases ms.len(),
{
    if ms.len() == 0 {
        seq![]
    } else {
        catalog_lines(ms.drop_last(), cats) + if cats.contains(ms.last().category@) {
            catalog_line(ms.last())
        } else {
            seq![]
        }
    }
}

/// The catalog the multi-agent prompt lists: text and vision models, then
/// under a heading the image models.
pub open spec fn catalog(ms: Seq<CatalogModel>) -> Seq<char> {
    catalog_lines(ms, seq!["text"@, "vision"@]) + "\n### Image Generation Models:\n"@ + catalog_lines(
        ms,
        seq!["image"@],
    )
}

fn append(out: &mut Vec<char>, s: &str)
    ensures
        final(out)@ == old(out)@ + s@,
{
    let v = chars_of(s);
    let ghost before = out@;
    let mut j: usize = 0;
    while j < v.len()
        invariant
            j <= v@.len(),
            v@ == s@,
            out@ == before + v@.take(j as int),
        decreases v@.len() - j,
    {
        out.push(v[j]);
        j = j + 1;
        assert(out@ =~= before + v@.take(j as int));
    }
    assert(v@.take(v@.len() as int) =~= v@);
}

fn append_lines(out: &mut Vec<char>, ms: &[CatalogModel], first: &str, second: &str)
    ensures
        final(out)@ == old(out)@ + catalog_lines(
            ms@,
            if second@.len() > 0 {
                seq![first@, second@]
            } else {
                seq![first@]
            },
        ),
{
    let ghost cats = if second@.len() > 0 {
        seq![first@, second@]
    } else {
        seq![first@]
    };
    let ghost before = out@;
    let mut k: usize = 0;
    assert(ms@.take(0) =~= Seq::<CatalogModel>::empty());
    assert(before + seq![] =~= before);
    while k < ms.len()
        invariant
            k <= ms@.len(),
            cats == (if second@.len() > 0 {
                seq![first@, second@]
            } else {
                seq![first@]
            }),
            out@ == before + catalog_lines(ms@.take(k as int), cats),
        decreases ms@.len() - k,
    {
        let m = &ms[k];
        assert(ms@.take(k + 1).drop_last() =~= ms@.take(k as int));
        assert(ms@.take(k + 1).last() == ms@[k as int]);
        let c = m.category.as_str();
        let listed = crate::text::str_eq(c, first) || (second.unicode_len() > 0 && crate::text::str_eq(c, second));
        assert(listed == cats.contains(m.category@)) by {
            if second@.len() > 0 {
                assert(cats[0] == first@ && cats[1] == second@);
                if cats.contains(m.category@) {
                    let j = choose|j: int| 0 <= j < cats.len() && cats[j] == m.category@;
                    assert(j == 0 || j == 1);
                }
            } else {
                assert(cats[0] == first@);
                if cats.contains(m.category@) {
                    let j = choose|j: int| 0 <= j < cats.len() && cats[j] == m.category@;
                    assert(j == 0);
                }
            }
        }
        let ghost mid = out@;
        if listed {
            append(out, "- **");
            append(out, m.display.as_str());
            append(out, "** (`");
            append(out, m.id.as_str());
            append(out, "`): ");
            append(out, m.strength.as_str());
            append(out, "\n");
            assert(out@ =~= mid + catalog_line(*m));
        } else {
            assert(out@ =~= mid + seq![]);
        }
        k = k + 1;
        assert(out@ =~= before + catalog_lines(ms@.take(k as int), cats));
    }
    assert(ms@.take(ms@.len() as int) =~= ms@);
}

/// Writes the model catalog.
pub fn model_catalog(ms: &[CatalogModel]) -> (r: String)
    ensures
        r@ == catalog(ms@),
{
    let mut out: Vec<char> = Vec::new();
    append_lines(&mut out, ms, "text", "vision");
    append(&mut out, "\n### Image Generation Models:\n");
    append_lines(&mut out, ms, "image", "");
    proof {
        reveal_strlit("");
        reveal_strlit("vision");
        assert(out@ =~= catalog(ms@));
    }
    string_from_chars(out.as_slice())
}

/// The texts the prompts are made of.
pub struct PromptTexts {
    pub build: String,
    pub plan: String,
    /// The multi-agent prompt, with `{MODEL_CATALOG}` where the catalog goes.
    pub agent_template: String,
    pub high_boost: String,
    pub max_boost: String,
}

/// The system prompt of a mode and tier: the mode's prompt (for the
/// multi-agent mode, the template with the catalog filled in and a note
/// naming the current model, which sub-agents must not get), then the
/// tier's addition.
pub open spec fn prompt_for(mode: Mode, tier: nat, texts: PromptTexts, models: Seq<CatalogModel>, current: Seq<char>) -> Seq<
    char,
> {
    let base = match mode {
        Mode::Build => texts.build@,
        Mode::Plan => texts.plan@,
        Mode::MultiAgent => replace_all(texts.agent_template@, "{MODEL_CATALOG}"@, catalog(models)) + "\n\n## YOUR CURRENT MODEL: `"@
            + current + "`\nNEVER assign this model to sub-agents. Always pick a DIFFERENT model."@,
    };
    base + if tier == 1 {
        texts.high_boost@
    } else if tier == 2 {
        texts.max_boost@
    } else {
        seq![]
    }
}

/// Writes the system prompt of a mode and tier.
pub fn mode_prompt(mode: Mode, tier: usize, texts: &PromptTexts, models: &[CatalogModel], current: &str) -> (r: String)
    requires
        tier < TIER_COUNT,
    ensures
        r@ == prompt_for(mode, tier as nat, *texts, models@, current@),
{
    let mut out: Vec<char> = Vec::new();
    match mode {
        Mode::Build => append(&mut out, texts.build.as_str()),
        Mode::Plan => append(&mut out, texts.plan.as_str()),
        Mode::MultiAgent => {
            let cat = model_catalog(models);
            proof {
                reveal_strlit("{MODEL_CATALOG}");
            }
            let filled = replace_text(texts.agent_template.as_str(), "{MODEL_CATALOG}", cat.as_str());
            append(&mut out, filled.as_str());
            append(&mut out, "\n\n## YOUR CURRENT MODEL: `");
            append(&mut out, current);
            append(&mut out, "`\nNEVER assign this model to sub-agents. Always pick a DIFFERENT model.");
        },
    }
    let ghost base = out@;
    if tier == 1 {
        append(&mut out, texts.high_boost.as_str());
    } else if tier == 2 {
        append(&mut out, texts.max_boost.as_str());
    } else {
        assert(out@ =~= base + seq![]);
    }
    string_from_chars(out.as_slice())
}

} // verus!
