//! Design references, and being honest about what comparing to one is worth.
//!
//! Break/Points owns half of "compare it to the Figma": holding the mapping
//! from panel to reference frame, so it persists and commits with the repo.

use vstd::prelude::*;
use vstd::string::StringExecFns;
use crate::canvas::names::meant;
use crate::canvas::row::{panel_of, panels, viewports_of, Canvas, CanvasNow, PanelNow};
use crate::model::Panelled;
use crate::text::{begins, begins_with, clone_opt, decimal, decimal_string, same};
use crate::util::{slug_of, slugify};

verus! {

/// What is said when no panel is meant.
pub open spec fn no_match(panel: Seq<char>) -> Seq<char> {
    "no panel matches \""@ + panel + "\""@
}

pub fn no_match_text(panel: &str) -> (r: String)
    ensures
        r@ == no_match(panel@),
{
    let mut e = "no panel matches \"".to_owned();
    e.append(panel);
    e.append("\"");
    e
}

/// A panel with a reference, if it is the one.
pub open spec fn referenced(p: PanelNow, id: Seq<char>, reference: Seq<char>) -> PanelNow {
    if p.viewport.id == id {
        PanelNow {
            viewport: Panelled { reference: Some(reference), ..p.viewport },
            ..p
        }
    } else {
        p
    }
}

/// Bind a Figma node or a local image to a viewport. Says which panel it was.
pub fn attach(canvas: &mut Canvas, panel: &str, reference: &str) -> (r: Result<String, String>)
    ensures
        match meant(viewports_of(old(canvas)@.panels), panel@) {
            Some(i) => {
                let id = old(canvas)@.panels[i].viewport.id;
                &&& r matches Ok(x) && x@ == id
                &&& final(canvas)@ == (CanvasNow {
                    panels: old(canvas)@.panels.map_values(
                        |p: PanelNow| referenced(p, id, reference@),
                    ),
                    ..old(canvas)@
                })
            },
            None => r matches Err(e) && e@ == no_match(panel@) && final(canvas)@ == old(canvas)@,
        },
{
    match canvas.resolve_id(panel) {
        None => Err(no_match_text(panel)),
        Some(id) => {
            let ghost start = canvas@;
            let ghost want = start.panels.map_values(|p: PanelNow| referenced(p, id@, reference@));
            let mut i: usize = 0;
            while i < canvas.panels.len()
                invariant
                    i <= canvas.panels@.len(),
                    canvas.panels@.len() == start.panels.len(),
                    want == start.panels.map_values(
                        |p: PanelNow| referenced(p, id@, reference@),
                    ),
                    canvas@ == (CanvasNow { panels: canvas@.panels, ..start }),
                    forall|k: int| 0 <= k < i ==> #[trigger] canvas@.panels[k] == want[k],
                    forall|k: int|
                        i <= k < canvas.panels@.len() ==> #[trigger] canvas@.panels[k]
                            == start.panels[k],
                decreases canvas.panels@.len() - i,
            {
                let ghost before = canvas@.panels;
                assert(before[i as int] == canvas.panels@[i as int]@);
                assert(before[i as int] == start.panels[i as int]);
                if same(canvas.panels[i].viewport.id.as_str(), id.as_str()) {
                    canvas.panels[i].viewport.reference = Some(reference.to_owned());
                    assert(canvas@.panels =~= before.update(
                        i as int,
                        canvas.panels@[i as int]@,
                    ));
                }
                assert(canvas@.panels[i as int] == want[i as int]);
                i += 1;
            }
            assert(canvas@.panels =~= want);
            Ok(id)
        },
    }
}

/// A reference that is a node of a design rather than a local image.
pub open spec fn is_remote(reference: Seq<char>) -> bool {
    begins(reference, "figma:"@) || begins(reference, "http"@)
}

/// What a panel can be compared with, by its name: its id and the path of a
/// local image.
pub open spec fn comparable(c: CanvasNow, panel: Seq<char>) -> Result<(Seq<char>, Seq<char>), Seq<
    char,
>> {
    match meant(viewports_of(c.panels), panel) {
        None => Err(no_match(panel)),
        Some(i) => {
            let id = c.panels[i].viewport.id;
            let reference = match panel_of(c.panels, id) {
                Some(k) => c.panels[k].viewport.reference,
                None => None,
            };
            match reference {
                None => Err(id + " has no reference attached; use attach_reference first"@),
                Some(r) => if is_remote(r) {
                    Err(
                        r
                            + " is a Figma node. Fetch the frame with Figma's own MCP server and compare both images in context; diff_panel only handles local image references."@,
                    )
                } else {
                    Ok((id, r))
                },
            }
        },
    }
}

/// Which local image a panel is to be compared with.
pub fn reference_for(canvas: &Canvas, panel: &str) -> (r: Result<(String, String), String>)
    ensures
        match comparable(canvas@, panel@) {
            Ok((id, path)) => r matches Ok((x, y)) && x@ == id && y@ == path,
            Err(why) => r matches Err(e) && e@ == why,
        },
{
    match canvas.resolve_id(panel) {
        None => Err(no_match_text(panel)),
        Some(id) => {
            let reference = match canvas.find(id.as_str()) {
                Some(k) => {
                    assert(canvas@.panels[k as int] == canvas.panels@[k as int]@);
                    clone_opt(&canvas.panels[k].viewport.reference)
                },
                None => None,
            };
            match reference {
                None => {
                    let mut e = id;
                    e.append(" has no reference attached; use attach_reference first");
                    Err(e)
                },
                Some(path) => {
                    if begins_with(path.as_str(), "figma:") || begins_with(path.as_str(), "http") {
                        let mut e = path;
                        e.append(
                            " is a Figma node. Fetch the frame with Figma's own MCP server and compare both images in context; diff_panel only handles local image references.",
                        );
                        Err(e)
                    } else {
                        Ok((id, path))
                    }
                },
            }
        },
    }
}

/// The file a difference image is written to.
pub fn diff_name(panel: &str, now_ms: u64) -> (r: String)
    ensures
        r@ == "diff-"@ + slug_of(panel@) + "-"@ + decimal(now_ms as nat) + ".png"@,
{
    let mut out = "diff-".to_owned();
    out.append(slugify(panel).as_str());
    out.append("-");
    out.append(decimal_string(now_ms).as_str());
    out.append(".png");
    out
}

/// What is said with a difference: the figure is a pointer rather than a
/// verdict. The useful signal is structural.
pub const READ_THIS_FIRST: &'static str =
    "The percentage is a pointer, not a verdict. Fonts, real content and images all differ from a comp, so a live page never matches one. Lead with measured differences from eval_js: a section in the wrong order, a missing element, or spacing out by 40px rather than 2px.";

/// A reference written down for a viewport.
#[derive(Debug)]
pub struct Bound {
    pub panel: String,
    pub width: i64,
    pub reference: String,
}

pub open spec fn bounds(v: Seq<Bound>) -> Seq<(Seq<char>, i64, Seq<char>)> {
    v.map_values(|b: Bound| (b.panel@, b.width, b.reference@))
}

/// The viewports that have a reference, in order.
pub open spec fn bound_in(vps: Seq<Panelled>) -> Seq<(Seq<char>, i64, Seq<char>)>
    decreases vps.len(),
{
    if vps.len() == 0 {
        Seq::empty()
    } else {
        let d = bound_in(vps.drop_last());
        match vps.last().reference {
            Some(r) => d.push((vps.last().name, vps.last().width, r)),
            None => d,
        }
    }
}

/// The references recorded in a project file, whether or not panels are open.
pub fn from_project_file(vps: &Vec<crate::model::Viewport>) -> (r: Vec<Bound>)
    ensures
        bounds(r@) == bound_in(crate::model::viewports(vps@)),
{
    let ghost all = crate::model::viewports(vps@);
    let mut out: Vec<Bound> = Vec::new();
    let mut i: usize = 0;
    assert(all.take(0) =~= Seq::empty());
    assert(bounds(out@) =~= Seq::empty());
    while i < vps.len()
        invariant
            i <= vps@.len(),
            all == crate::model::viewports(vps@),
            bounds(out@) == bound_in(all.take(i as int)),
        decreases vps@.len() - i,
    {
        proof {
            assert(all.take(i + 1).drop_last() =~= all.take(i as int));
            assert(all.take(i + 1).last() == vps@[i as int]@);
        }
        if let Some(reference) = &vps[i].reference {
            let ghost before = bounds(out@);
            let b = Bound {
                panel: vps[i].name.as_str().to_owned(),
                width: vps[i].width,
                reference: reference.as_str().to_owned(),
            };
            out.push(b);
            assert(bounds(out@) =~= before.push((b.panel@, b.width, b.reference@)));
        }
        i += 1;
    }
    assert(all.take(all.len() as int) =~= all);
    out
}

/// The references of a row are those of the panels that have one, each with its
/// panel's name and width, left to right.
pub proof fn every_reference_is_listed(vps: Seq<Panelled>)
    ensures
        bound_in(vps) == vps.filter(|v: Panelled| v.reference is Some).map_values(
            |v: Panelled| (v.name, v.width, v.reference->0),
        ),
    decreases vps.len(),
{
    reveal(Seq::filter);
    let has = |v: Panelled| v.reference is Some;
    let told = |v: Panelled| (v.name, v.width, v.reference->0);
    if vps.len() == 0 {
        assert(vps.filter(has).map_values(told) =~= Seq::empty());
    } else {
        let d = vps.drop_last();
        every_reference_is_listed(d);
        assert(d.filter(has).push(vps.last()).map_values(told) =~= d.filter(has).map_values(
            told,
        ).push(told(vps.last())));
    }
}

/// Attaching a reference changes the panel of that id and no other, and nothing
/// else of it.
pub proof fn a_reference_is_attached_to_its_panel(
    p: PanelNow,
    id: Seq<char>,
    reference: Seq<char>,
)
    ensures
        p.viewport.id == id ==> referenced(p, id, reference).viewport.reference == Some(reference),
        p.viewport.id != id ==> referenced(p, id, reference) == p,
        referenced(p, id, reference).viewport.id == p.viewport.id,
        referenced(p, id, reference).viewport.width == p.viewport.width,
        referenced(p, id, reference).viewport.height == p.viewport.height,
{
}

/// A panel can be compared with a picture that was attached to it: not with
/// nothing, and not with something on Figma or the web.
pub proof fn only_a_picture_at_hand_is_compared(c: CanvasNow, panel: Seq<char>, i: int)
    requires
        meant(viewports_of(c.panels), panel) == Some(i),
        0 <= i < c.panels.len(),
        panel_of(c.panels, c.panels[i].viewport.id) == Some(i),
    ensures
        ({
            let v = c.panels[i].viewport;
            &&& v.reference is None ==> comparable(c, panel) is Err
            &&& v.reference matches Some(r) ==> {
                &&& begins(r, "figma:"@) || begins(r, "http"@) ==> comparable(c, panel) is Err
                &&& !(begins(r, "figma:"@) || begins(r, "http"@)) ==> comparable(c, panel) == Ok::<
                    (Seq<char>, Seq<char>),
                    Seq<char>,
                >((v.id, r))
            }
        }),
{
}

/// A panel that is not there cannot be compared, and the answer says which was
/// asked for.
pub proof fn a_panel_that_is_not_there_is_not_compared(c: CanvasNow, panel: Seq<char>)
    requires
        meant(viewports_of(c.panels), panel) is None,
    ensures
        comparable(c, panel) == Err::<(Seq<char>, Seq<char>), Seq<char>>(
            "no panel matches \""@ + panel + "\""@,
        ),
{
}

} // verus!
