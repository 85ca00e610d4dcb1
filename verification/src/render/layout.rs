//! What a scene draws, and with which files.

use vstd::prelude::*;

use crate::text::{opt_text, same_text, trim_leading, without_leading};
use crate::timeline::layouts::{
    in_drawing_order, is_video, layout_is_in_drawing_order, sort_elements,
};
use crate::timeline::models::{
    copy_elements, element_views, LayoutDefinition, LayoutDefinitionView, LayoutElement,
    LayoutElementView,
};
use crate::timeline::PlaybackScene;

verus! {

/// The models of the files of a scene: an id and a path each.
pub open spec fn file_views(files: Seq<(i64, String)>) -> Seq<(i64, Seq<char>)> {
    Seq::new(files.len(), |i: int| (files[i].0, files[i].1@))
}

/// The file of this id; where there are several, the last.
pub open spec fn file_of(files: Seq<(i64, Seq<char>)>, id: i64) -> Option<Seq<char>>
    decreases files.len(),
{
    if files.len() == 0 {
        None
    } else if files.last().0 == id {
        Some(files.last().1)
    } else {
        file_of(files.drop_last(), id)
    }
}

/// The file of this id.
pub fn find_file(files: &Vec<(i64, String)>, id: i64) -> (r: Option<String>)
    ensures
        opt_text(r) == file_of(file_views(files@), id),
{
    let ghost views = file_views(files@);
    let mut i: usize = files.len();
    assert(views.take(views.len() as int) =~= views);
    while i > 0
        invariant
            i <= files@.len(),
            views == file_views(files@),
            file_of(views, id) == file_of(views.take(i as int), id),
        decreases i,
    {
        assert(views.take(i as int).drop_last() =~= views.take(i - 1));
        assert(views.take(i as int).last() == views[i - 1]);
        if files[i - 1].0 == id {
            return Some(files[i - 1].1.as_str().to_owned());
        }
        i = i - 1;
    }
    None
}

/// An element of a layout with its file.
#[derive(Debug)]
pub struct RenderElement {
    pub element: LayoutElement,
    /// The file of an image or a video.
    pub image_path: Option<String>,
}

/// Model of a [`RenderElement`].
#[verifier::ext_equal]
pub struct RenderElementView {
    pub element: LayoutElementView,
    pub image_path: Option<Seq<char>>,
}

impl View for RenderElement {
    type V = RenderElementView;

    open spec fn view(&self) -> RenderElementView {
        RenderElementView { element: self.element@, image_path: opt_text(self.image_path) }
    }
}

/// The models of a list of elements.
pub open spec fn drawn_views(elements: Seq<RenderElement>) -> Seq<RenderElementView> {
    Seq::new(elements.len(), |i: int| elements[i]@)
}

/// What a scene draws on a canvas.
#[derive(Debug)]
pub struct RenderPlan {
    pub layout: LayoutDefinition,
    pub canvas_width: u32,
    pub canvas_height: u32,
    /// In the order of drawing.
    pub elements: Vec<RenderElement>,
}

/// Model of a [`RenderPlan`].
#[verifier::ext_equal]
pub struct RenderPlanView {
    pub layout: LayoutDefinitionView,
    pub canvas_width: u32,
    pub canvas_height: u32,
    pub elements: Seq<RenderElementView>,
}

impl View for RenderPlan {
    type V = RenderPlanView;

    open spec fn view(&self) -> RenderPlanView {
        RenderPlanView {
            layout: self.layout@,
            canvas_width: self.canvas_width,
            canvas_height: self.canvas_height,
            elements: drawn_views(self.elements@),
        }
    }
}

/// An element with the file of its id.
pub open spec fn with_file(
    element: LayoutElementView,
    files: Seq<(i64, Seq<char>)>,
) -> RenderElementView {
    RenderElementView {
        element,
        image_path: match element.file_id {
            Some(id) => file_of(files, id),
            None => None,
        },
    }
}

/// What a layout draws on a canvas: its elements in the order of drawing, each with the file of its
/// id.
pub open spec fn plan_of(
    layout: LayoutDefinitionView,
    canvas_width: u32,
    canvas_height: u32,
    files: Seq<(i64, Seq<char>)>,
) -> RenderPlanView {
    let ordered = in_drawing_order(layout.elements);
    RenderPlanView {
        layout,
        canvas_width,
        canvas_height,
        elements: Seq::new(ordered.len(), |i: int| with_file(ordered[i], files)),
    }
}

/// Makes plans of layouts.
pub struct LayoutRenderer;

impl LayoutRenderer {
    /// What a layout draws on a canvas.
    pub fn build_plan(
        layout: &LayoutDefinition,
        canvas_width: u32,
        canvas_height: u32,
        local_files: &Vec<(i64, String)>,
    ) -> (r: RenderPlan)
        ensures
            r@ == plan_of(layout@, canvas_width, canvas_height, file_views(local_files@)),
            r.layout@ == layout@,
            r.canvas_width == canvas_width,
            r.canvas_height == canvas_height,
            r.elements@.len() == layout.elements@.len(),
    {
        let ordered: Vec<LayoutElement> = sort_elements(copy_elements(&layout.elements));
        let mut elements: Vec<RenderElement> = Vec::new();
        let ghost views = element_views(ordered@);
        let ghost files = file_views(local_files@);
        let mut i: usize = 0;
        while i < ordered.len()
            invariant
                i <= ordered@.len(),
                views == element_views(ordered@),
                files == file_views(local_files@),
                elements@.len() == i,
                forall|j: int|
                    0 <= j < i ==> (#[trigger] elements@[j])@ == with_file(views[j], files),
            decreases ordered@.len() - i,
        {
            let image_path: Option<String> = match ordered[i].file_id {
                Some(id) => find_file(local_files, id),
                None => None,
            };
            elements.push(RenderElement { element: ordered[i].clone(), image_path });
            assert(elements@[i as int]@ == with_file(views[i as int], files));
            i = i + 1;
        }
        let plan: RenderPlan = RenderPlan {
            layout: layout.clone(),
            canvas_width,
            canvas_height,
            elements,
        };
        assert(plan@.elements =~= plan_of(layout@, canvas_width, canvas_height, files).elements);
        proof {
            layout_is_in_drawing_order(layout@.elements);
        }
        plan
    }
}

/// What a scene draws on a canvas; nothing where it has no layout.
pub fn scene_render_plan(
    scene: &PlaybackScene,
    canvas_width: u32,
    canvas_height: u32,
    local_files: &Vec<(i64, String)>,
) -> (r: Option<RenderPlan>)
    ensures
        match scene@.layout {
            Some(layout) => r matches Some(plan) && plan@ == plan_of(
                layout,
                canvas_width,
                canvas_height,
                file_views(local_files@),
            ),
            None => r is None,
        },
{
    match &scene.layout {
        Some(layout) => Some(
            LayoutRenderer::build_plan(layout, canvas_width, canvas_height, local_files),
        ),
        None => None,
    }
}

/// Whether an element is an image.
pub open spec fn is_image(e: LayoutElementView) -> bool {
    e.element_type == "image"@
}

/// Whether an element is a text.
pub open spec fn is_text(e: LayoutElementView) -> bool {
    e.element_type == "text"@
}

/// The image elements whose files are to be decoded: those that have a file, each file once.
pub open spec fn images_to_decode(elements: Seq<RenderElementView>) -> Seq<int>
    decreases elements.len(),
{
    if elements.len() == 0 {
        Seq::empty()
    } else {
        let before = images_to_decode(elements.drop_last());
        let e = elements.last();
        if is_image(e.element) && e.image_path is Some && !decodes(
            elements,
            before,
            e.image_path->0,
        ) {
            before.push(elements.len() - 1)
        } else {
            before
        }
    }
}

/// Whether one of the elements at `indices` has this file.
pub open spec fn decodes(
    elements: Seq<RenderElementView>,
    indices: Seq<int>,
    path: Seq<char>,
) -> bool {
    exists|k: int|
        0 <= k < indices.len() && elements[#[trigger] indices[k]].image_path == Some(path)
}

/// The indices that a list of `usize` holds.
pub open spec fn as_indices(list: Seq<usize>) -> Seq<int> {
    Seq::new(list.len(), |i: int| list[i] as int)
}

proof fn lemma_images_to_decode(elements: Seq<RenderElementView>)
    ensures
        forall|k: int|
            0 <= k < images_to_decode(elements).len() ==> 0
                <= #[trigger] images_to_decode(elements)[k] < elements.len(),
        forall|k: int|
            #![trigger images_to_decode(elements)[k]]
            0 <= k < images_to_decode(elements).len() ==> is_image(
                elements[images_to_decode(elements)[k]].element,
            ) && elements[images_to_decode(elements)[k]].image_path is Some,
        forall|i: int|
            #![trigger elements[i]]
            0 <= i < elements.len() && is_image(elements[i].element)
                && elements[i].image_path is Some ==> decodes(
                elements,
                images_to_decode(elements),
                elements[i].image_path->0,
            ),
        forall|a: int, b: int|
            #![trigger images_to_decode(elements)[a], images_to_decode(elements)[b]]
            0 <= a < b < images_to_decode(elements).len()
                ==> elements[images_to_decode(elements)[a]].image_path
                != elements[images_to_decode(elements)[b]].image_path,
    decreases elements.len(),
{
    if elements.len() > 0 {
        let shorter = elements.drop_last();
        let before = images_to_decode(shorter);
        let out = images_to_decode(elements);
        let last = elements.len() - 1;
        lemma_images_to_decode(shorter);
        assert forall|k: int| 0 <= k < before.len() implies #[trigger] before[k] < last
            && shorter[before[k]] == elements[before[k]] by {}
        assert forall|i: int|
            #![trigger elements[i]]
            0 <= i < elements.len() && is_image(elements[i].element)
                && elements[i].image_path is Some implies decodes(
            elements,
            out,
            elements[i].image_path->0,
        ) by {
            let path = elements[i].image_path->0;
            if i < last {
                assert(shorter[i] == elements[i]);
                assert(decodes(shorter, before, path));
                let k = choose|k: int|
                    0 <= k < before.len() && shorter[#[trigger] before[k]].image_path == Some(path);
                assert(out[k] == before[k]);
            } else if decodes(elements, before, path) {
                let k = choose|k: int|
                    0 <= k < before.len() && elements[#[trigger] before[k]].image_path == Some(path);
                assert(out[k] == before[k]);
            } else {
                assert(out[before.len() as int] == last);
            }
        }
        assert forall|a: int, b: int|
            #![trigger out[a], out[b]]
            0 <= a < b < out.len() implies elements[out[a]].image_path
            != elements[out[b]].image_path by {
            assert(out[a] == before[a]);
            if b < before.len() {
                assert(out[b] == before[b]);
            } else {
                assert(!decodes(elements, before, elements[last].image_path->0));
            }
        }
    }
}

/// Every image that has a file is decoded, from one element with that file and no other.
pub proof fn every_image_is_decoded_once(elements: Seq<RenderElementView>)
    ensures
        forall|i: int|
            #![trigger elements[i]]
            0 <= i < elements.len() && is_image(elements[i].element)
                && elements[i].image_path is Some ==> decodes(
                elements,
                images_to_decode(elements),
                elements[i].image_path->0,
            ),
        forall|a: int, b: int|
            #![trigger images_to_decode(elements)[a], images_to_decode(elements)[b]]
            0 <= a < b < images_to_decode(elements).len()
                ==> elements[images_to_decode(elements)[a]].image_path
                != elements[images_to_decode(elements)[b]].image_path,
{
    lemma_images_to_decode(elements);
}

/// The image elements whose files are to be decoded.
pub fn image_elements(elements: &Vec<RenderElement>) -> (r: Vec<usize>)
    ensures
        as_indices(r@) == images_to_decode(drawn_views(elements@)),
        forall|k: int| 0 <= k < r@.len() ==> #[trigger] r@[k] < elements@.len(),
        forall|k: int|
            0 <= k < r@.len() ==> elements@[#[trigger] r@[k] as int]@.image_path is Some,
{
    let ghost views = drawn_views(elements@);
    let mut out: Vec<usize> = Vec::new();
    let mut i: usize = 0;
    assert(views.take(0) =~= Seq::empty());
    assert(as_indices(out@) =~= images_to_decode(views.take(0)));
    while i < elements.len()
        invariant
            i <= elements@.len(),
            views == drawn_views(elements@),
            as_indices(out@) == images_to_decode(views.take(i as int)),
            forall|k: int| 0 <= k < out@.len() ==> #[trigger] out@[k] < i,
        decreases elements@.len() - i,
    {
        let ghost upto = views.take(i + 1);
        assert(upto.drop_last() =~= views.take(i as int));
        assert(views[i as int] == elements@[i as int]@);
        assert(upto.last() == views[i as int]);
        if same_text(elements[i].element.element_type.as_str(), "image") {
            if let Some(path) = &elements[i].image_path {
                let ghost before = as_indices(out@);
                let mut seen: bool = false;
                let mut k: usize = 0;
                while k < out.len() && !seen
                    invariant
                        k <= out@.len(),
                        i < elements@.len(),
                        views == drawn_views(elements@),
                        upto == views.take(i + 1),
                        before == as_indices(out@),
                        forall|q: int| 0 <= q < out@.len() ==> #[trigger] out@[q] < i,
                        seen ==> decodes(upto, before, path@),
                        !seen ==> forall|q: int|
                            0 <= q < k ==> upto[#[trigger] before[q]].image_path != Some(path@),
                    decreases out@.len() - k + (if seen {
                        0int
                    } else {
                        1
                    }),
                {
                    let at: usize = out[k];
                    assert(before[k as int] == at);
                    assert(upto[at as int] == elements@[at as int]@);
                    seen = match &elements[at].image_path {
                        Some(other) => same_text(other.as_str(), path.as_str()),
                        None => false,
                    };
                    if !seen {
                        k = k + 1;
                    }
                }
                if !seen {
                    out.push(i);
                    assert(as_indices(out@) =~= before.push(i as int));
                }
            }
        }
        i = i + 1;
    }
    proof {
        assert(views.take(i as int) =~= views);
        lemma_images_to_decode(views);
        assert forall|k: int| 0 <= k < out@.len() implies elements@[#[trigger] out@[k] as int]@.image_path is Some by {
            assert(as_indices(out@)[k] == out@[k]);
            assert(views[out@[k] as int] == elements@[out@[k] as int]@);
        }
    }
    out
}

/// The first video that has a file.
pub open spec fn video_to_play(elements: Seq<RenderElementView>, from: int) -> Option<int>
    decreases elements.len() - from,
{
    if from >= elements.len() {
        None
    } else if is_video(elements[from].element) && elements[from].image_path is Some {
        Some(from)
    } else {
        video_to_play(elements, from + 1)
    }
}

/// The first video that has a file.
pub fn video_element(elements: &Vec<RenderElement>) -> (r: Option<usize>)
    ensures
        match r {
            Some(i) => video_to_play(drawn_views(elements@), 0) == Some(i as int) && i
                < elements@.len() && elements@[i as int]@.image_path is Some,
            None => video_to_play(drawn_views(elements@), 0) is None,
        },
{
    let ghost views = drawn_views(elements@);
    let count: usize = elements.len();
    let mut i: usize = 0;
    while i < count
        invariant
            count == elements@.len(),
            i <= count,
            views == drawn_views(elements@),
            video_to_play(views, 0) == video_to_play(views, i as int),
        decreases count - i,
    {
        assert(views[i as int] == elements@[i as int]@);
        if same_text(elements[i].element.element_type.as_str(), "video")
            && elements[i].image_path.is_some() {
            return Some(i);
        }
        i = i + 1;
    }
    None
}

/// The value of a hexadecimal digit.
pub open spec fn hex_digit(c: char) -> Option<int> {
    if '0' <= c <= '9' {
        Some(c as int - '0' as int)
    } else if 'a' <= c <= 'f' {
        Some(c as int - 'a' as int + 10)
    } else if 'A' <= c <= 'F' {
        Some(c as int - 'A' as int + 10)
    } else {
        None
    }
}

/// The byte that two hexadecimal digits denote.
pub open spec fn hex_byte(a: char, b: char) -> Option<u8> {
    match (hex_digit(a), hex_digit(b)) {
        (Some(high), Some(low)) => Some((high * 16 + low) as u8),
        _ => None,
    }
}

/// The color that a text denotes: `#` and six digits, or eight with the last two for how opaque it
/// is.
pub open spec fn color_of(text: Seq<char>) -> Option<Seq<u8>> {
    let s = without_leading(text, '#');
    if s.len() == 6 {
        match (hex_byte(s[0], s[1]), hex_byte(s[2], s[3]), hex_byte(s[4], s[5])) {
            (Some(red), Some(green), Some(blue)) => Some(seq![red, green, blue, 255u8]),
            _ => None,
        }
    } else if s.len() == 8 {
        match (
            hex_byte(s[0], s[1]),
            hex_byte(s[2], s[3]),
            hex_byte(s[4], s[5]),
            hex_byte(s[6], s[7]),
        ) {
            (Some(red), Some(green), Some(blue), Some(alpha)) => Some(
                seq![red, green, blue, alpha],
            ),
            _ => None,
        }
    } else {
        None
    }
}

fn digit_value(c: char) -> (r: Option<u8>)
    ensures
        match r {
            Some(d) => hex_digit(c) == Some(d as int) && d < 16,
            None => hex_digit(c) is None,
        },
{
    if '0' <= c && c <= '9' {
        Some((c as u32 - '0' as u32) as u8)
    } else if 'a' <= c && c <= 'f' {
        Some((c as u32 - 'a' as u32 + 10) as u8)
    } else if 'A' <= c && c <= 'F' {
        Some((c as u32 - 'A' as u32 + 10) as u8)
    } else {
        None
    }
}

fn byte_value(a: char, b: char) -> (r: Option<u8>)
    ensures
        r == hex_byte(a, b),
{
    match (digit_value(a), digit_value(b)) {
        (Some(high), Some(low)) => Some(high * 16 + low),
        _ => None,
    }
}

/// The color that a text denotes: red, green, blue and how opaque it is.
pub fn parse_hex_color(value: &str) -> (r: Option<[u8; 4]>)
    ensures
        match r {
            Some(color) => color_of(value@) == Some(color@),
            None => color_of(value@) is None,
        },
{
    let text: String = trim_leading(value, '#');
    let s: Vec<char> = crate::text::to_chars(text.as_str());
    if s.len() == 6 {
        match (byte_value(s[0], s[1]), byte_value(s[2], s[3]), byte_value(s[4], s[5])) {
            (Some(red), Some(green), Some(blue)) => {
                let color: [u8; 4] = [red, green, blue, 255];
                assert(color@ =~= seq![red, green, blue, 255u8]);
                Some(color)
            },
            _ => None,
        }
    } else if s.len() == 8 {
        match (
            byte_value(s[0], s[1]),
            byte_value(s[2], s[3]),
            byte_value(s[4], s[5]),
            byte_value(s[6], s[7]),
        ) {
            (Some(red), Some(green), Some(blue), Some(alpha)) => {
                let color: [u8; 4] = [red, green, blue, alpha];
                assert(color@ =~= seq![red, green, blue, alpha]);
                Some(color)
            },
            _ => None,
        }
    } else {
        None
    }
}

/// An element and a plan are modelled field by field.
pub proof fn plan_models_are_faithful(e: RenderElement, plan: RenderPlan)
    ensures
        e@.element == e.element@,
        e.image_path matches Some(path) ==> e@.image_path == Some(path@),
        e.image_path is None ==> e@.image_path is None,
        plan@.layout == plan.layout@,
        plan@.canvas_width == plan.canvas_width,
        plan@.canvas_height == plan.canvas_height,
        plan@.elements.len() == plan.elements@.len(),
        forall|i: int|
            0 <= i < plan.elements@.len() ==> #[trigger] plan@.elements[i] == plan.elements@[i]@,
{
}

/// The file of an id is the one that was told last for it. There is none exactly where none was told.
pub proof fn the_last_file_of_an_id_counts(files: Seq<(i64, Seq<char>)>, id: i64)
    ensures
        forall|i: int|
            #![trigger files[i]]
            0 <= i < files.len() && files[i].0 == id && (forall|j: int|
                i < j < files.len() ==> (#[trigger] files[j]).0 != id) ==> file_of(files, id)
                == Some(files[i].1),
        (forall|i: int| 0 <= i < files.len() ==> (#[trigger] files[i]).0 != id) ==> file_of(
            files,
            id,
        ) is None,
    decreases files.len(),
{
    if files.len() > 0 {
        let shorter = files.drop_last();
        the_last_file_of_an_id_counts(shorter, id);
        assert forall|i: int|
            #![trigger files[i]]
            0 <= i < files.len() && files[i].0 == id && (forall|j: int|
                i < j < files.len() ==> (#[trigger] files[j]).0 != id) implies file_of(files, id)
            == Some(files[i].1) by {
            if i < files.len() - 1 {
                assert(files[files.len() - 1].0 != id);
                assert(shorter[i] == files[i]);
                assert forall|j: int| i < j < shorter.len() implies (#[trigger] shorter[j]).0
                    != id by {
                    assert(shorter[j] == files[j]);
                }
            }
        }
        if forall|i: int| 0 <= i < files.len() ==> (#[trigger] files[i]).0 != id {
            assert(files[files.len() - 1].0 != id);
            assert forall|i: int| 0 <= i < shorter.len() implies (#[trigger] shorter[i]).0 != id by {
                assert(shorter[i] == files[i]);
            }
        }
    }
}

/// A plan is for the canvas that was asked for. It draws what the layout has and nothing else: each
/// element as it is in the layout, with the file that was told for its id, and none where it has no
/// id.
pub proof fn plans_draw_the_elements_of_the_layout(
    layout: LayoutDefinitionView,
    width: u32,
    height: u32,
    files: Seq<(i64, Seq<char>)>,
    k: int,
) -> (j: int)
    requires
        0 <= k < layout.elements.len(),
    ensures
        plan_of(layout, width, height, files).canvas_width == width,
        plan_of(layout, width, height, files).canvas_height == height,
        plan_of(layout, width, height, files).layout == layout,
        plan_of(layout, width, height, files).elements.len() == layout.elements.len(),
        0 <= j < layout.elements.len(),
        ({
            let drawn = plan_of(layout, width, height, files).elements[k];
            &&& drawn.element == layout.elements[j]
            &&& layout.elements[j].file_id is None ==> drawn.image_path is None
            &&& forall|i: int|
                #![trigger files[i]]
                0 <= i < files.len() && layout.elements[j].file_id == Some(files[i].0) && (forall|
                    l: int,
                | i < l < files.len() ==> (#[trigger] files[l]).0 != files[i].0)
                    ==> drawn.image_path == Some(files[i].1)
            &&& drawn.image_path is Some ==> exists|i: int|
                0 <= i < files.len() && layout.elements[j].file_id == Some(
                    (#[trigger] files[i]).0,
                ) && drawn.image_path == Some(files[i].1)
        }),
{
    let elements = layout.elements;
    let ordered = in_drawing_order(elements);
    layout_is_in_drawing_order(elements);
    let j = lemma_drawn_from(elements, k);
    let drawn = plan_of(layout, width, height, files).elements[k];
    if let Some(id) = elements[j].file_id {
        the_last_file_of_an_id_counts(files, id);
        if drawn.image_path is Some {
            lemma_file_is_told(files, id);
        }
    }
    j
}

proof fn lemma_drawn_from(elements: Seq<LayoutElementView>, k: int) -> (j: int)
    requires
        0 <= k < elements.len(),
    ensures
        0 <= j < elements.len(),
        in_drawing_order(elements)[k] == elements[j],
{
    let ordered = in_drawing_order(elements);
    layout_is_in_drawing_order(elements);
    ordered.to_multiset_ensures();
    elements.to_multiset_ensures();
    assert(ordered.contains(ordered[k]));
    assert(elements.to_multiset().count(ordered[k]) > 0);
    assert(elements.contains(ordered[k]));
    choose|j: int| 0 <= j < elements.len() && elements[j] == ordered[k]
}

proof fn lemma_file_is_told(files: Seq<(i64, Seq<char>)>, id: i64)
    requires
        file_of(files, id) is Some,
    ensures
        exists|i: int|
            0 <= i < files.len() && (#[trigger] files[i]).0 == id && file_of(files, id) == Some(
                files[i].1,
            ),
    decreases files.len(),
{
    if files.last().0 == id {
        assert(files[files.len() - 1].0 == id);
    } else {
        lemma_file_is_told(files.drop_last(), id);
        let i = choose|i: int|
            0 <= i < files.len() - 1 && (#[trigger] files.drop_last()[i]).0 == id && file_of(
                files.drop_last(),
                id,
            ) == Some(files.drop_last()[i].1);
        assert(files[i] == files.drop_last()[i]);
    }
}

/// A plan draws every element of the layout, from the lowest to the highest `z_index`, where none
/// counts as 0.
pub proof fn plans_draw_from_the_lowest_up(
    layout: LayoutDefinitionView,
    width: u32,
    height: u32,
    files: Seq<(i64, Seq<char>)>,
)
    ensures
        forall|k: int, l: int|
            0 <= k < l < layout.elements.len() ==> {
                let below: i32 = match (#[trigger] plan_of(
                    layout,
                    width,
                    height,
                    files,
                ).elements[k]).element.z_index {
                    Some(z) => z,
                    None => 0,
                };
                let above: i32 = match (#[trigger] plan_of(
                    layout,
                    width,
                    height,
                    files,
                ).elements[l]).element.z_index {
                    Some(z) => z,
                    None => 0,
                };
                below <= above
            },
        forall|j: int|
            0 <= j < layout.elements.len() ==> exists|k: int|
                0 <= k < plan_of(layout, width, height, files).elements.len() && (
                #[trigger] plan_of(layout, width, height, files).elements[k]).element == (
                #[trigger] layout.elements[j]),
{
    let elements = layout.elements;
    let ordered = in_drawing_order(elements);
    let plan = plan_of(layout, width, height, files);
    layout_is_in_drawing_order(elements);
    ordered.to_multiset_ensures();
    elements.to_multiset_ensures();
    assert forall|k: int, l: int| 0 <= k < l < elements.len() implies {
        let below: i32 = match (#[trigger] plan.elements[k]).element.z_index {
            Some(z) => z,
            None => 0,
        };
        let above: i32 = match (#[trigger] plan.elements[l]).element.z_index {
            Some(z) => z,
            None => 0,
        };
        below <= above
    } by {
        assert(plan.elements[k].element == ordered[k]);
        assert(plan.elements[l].element == ordered[l]);
    }
    assert forall|j: int| 0 <= j < elements.len() implies exists|k: int|
        0 <= k < plan.elements.len() && (#[trigger] plan.elements[k]).element == (
        #[trigger] elements[j]) by {
        assert(elements.contains(elements[j]));
        assert(ordered.to_multiset().count(elements[j]) > 0);
        assert(ordered.contains(elements[j]));
        let k = choose|k: int| 0 <= k < ordered.len() && ordered[k] == elements[j];
        assert(plan.elements[k].element == ordered[k]);
    }
}

/// What is decoded is a file of an image, never one of a video or a text, and the elements come in
/// the order of drawing.
pub proof fn only_images_are_decoded(elements: Seq<RenderElementView>)
    ensures
        forall|k: int|
            #![trigger images_to_decode(elements)[k]]
            0 <= k < images_to_decode(elements).len() ==> {
                let e = elements[images_to_decode(elements)[k]];
                &&& 0 <= images_to_decode(elements)[k] < elements.len()
                &&& e.element.element_type == "image"@
                &&& e.image_path is Some
            },
        forall|a: int, b: int|
            0 <= a < b < images_to_decode(elements).len() ==> #[trigger] images_to_decode(
                elements,
            )[a] < #[trigger] images_to_decode(elements)[b],
        forall|i: int|
            #![trigger elements[i]]
            0 <= i < elements.len() && elements[i].element.element_type == "image"@
                && elements[i].image_path is Some ==> exists|k: int|
                0 <= k < images_to_decode(elements).len() && elements[#[trigger] images_to_decode(
                    elements,
                )[k]].image_path == elements[i].image_path,
    decreases elements.len(),
{
    lemma_images_to_decode(elements);
    let out = images_to_decode(elements);
    if elements.len() > 0 {
        let before = images_to_decode(elements.drop_last());
        only_images_are_decoded(elements.drop_last());
        lemma_images_to_decode(elements.drop_last());
        assert forall|a: int, b: int| 0 <= a < b < out.len() implies #[trigger] out[a]
            < #[trigger] out[b] by {
            assert(out[a] == before[a]);
            if b < before.len() {
                assert(out[b] == before[b]);
            }
        }
    }
    assert forall|i: int|
        #![trigger elements[i]]
        0 <= i < elements.len() && elements[i].element.element_type == "image"@
            && elements[i].image_path is Some implies exists|k: int|
        0 <= k < out.len() && elements[#[trigger] out[k]].image_path
            == elements[i].image_path by {
        assert(decodes(elements, out, elements[i].image_path->0));
    }
}

/// The video of a scene is the first that has a file. A scene has none exactly where no video has a
/// file.
pub proof fn the_first_video_with_a_file_is_played(elements: Seq<RenderElementView>)
    ensures
        match video_to_play(elements, 0) {
            Some(v) => {
                &&& 0 <= v < elements.len()
                &&& elements[v].element.element_type == "video"@
                &&& elements[v].image_path is Some
                &&& forall|i: int|
                    0 <= i < v ==> (#[trigger] elements[i]).element.element_type != "video"@
                        || elements[i].image_path is None
            },
            None => forall|i: int|
                0 <= i < elements.len() ==> (#[trigger] elements[i]).element.element_type
                    != "video"@ || elements[i].image_path is None,
        },
{
    lemma_video_to_play(elements, 0);
}

proof fn lemma_video_to_play(elements: Seq<RenderElementView>, from: int)
    requires
        0 <= from <= elements.len(),
    ensures
        match video_to_play(elements, from) {
            Some(v) => {
                &&& from <= v < elements.len()
                &&& is_video(elements[v].element)
                &&& elements[v].image_path is Some
                &&& forall|i: int|
                    from <= i < v ==> !is_video((#[trigger] elements[i]).element)
                        || elements[i].image_path is None
            },
            None => forall|i: int|
                from <= i < elements.len() ==> !is_video((#[trigger] elements[i]).element)
                    || elements[i].image_path is None,
        },
    decreases elements.len() - from,
{
    if from < elements.len() {
        lemma_video_to_play(elements, from + 1);
    }
}

/// Two digits say a byte, the first its sixteens. A digit counts 0 to 9, and `a` to `f`, large or
/// small, 10 to 15; nothing else is a digit.
pub proof fn two_digits_say_a_byte(a: char, b: char)
    ensures
        '0' <= a <= '9' && '0' <= b <= '9' ==> hex_byte(a, b) == Some(
            ((a as int - 48) * 16 + (b as int - 48)) as u8,
        ),
        'a' <= a <= 'f' && 'A' <= b <= 'F' ==> hex_byte(a, b) == Some(
            ((a as int - 87) * 16 + (b as int - 55)) as u8,
        ),
        'A' <= a <= 'F' && 'a' <= b <= 'f' ==> hex_byte(a, b) == Some(
            ((a as int - 55) * 16 + (b as int - 87)) as u8,
        ),
        '0' <= a <= '9' && 'a' <= b <= 'f' ==> hex_byte(a, b) == Some(
            ((a as int - 48) * 16 + (b as int - 87)) as u8,
        ),
        'a' <= a <= 'f' && '0' <= b <= '9' ==> hex_byte(a, b) == Some(
            ((a as int - 87) * 16 + (b as int - 48)) as u8,
        ),
        hex_byte(a, b) is Some <==> {
            &&& '0' <= a <= '9' || 'a' <= a <= 'f' || 'A' <= a <= 'F'
            &&& '0' <= b <= '9' || 'a' <= b <= 'f' || 'A' <= b <= 'F'
        },
{
}

/// A color is read from left to right: red, green, blue, and how opaque it is; six digits say a color
/// that hides all behind it. A text of another length, or with another character in it, says none.
pub proof fn colors_are_red_green_blue(s: Seq<char>)
    requires
        s.len() > 0 ==> s[0] != '#',
    ensures
        color_of(seq!['#'] + s) == color_of(s),
        s.len() == 6 && color_of(s) is Some ==> {
            &&& color_of(s)->0.len() == 4
            &&& Some(color_of(s)->0[0]) == hex_byte(s[0], s[1])
            &&& Some(color_of(s)->0[1]) == hex_byte(s[2], s[3])
            &&& Some(color_of(s)->0[2]) == hex_byte(s[4], s[5])
            &&& color_of(s)->0[3] == 255
        },
        s.len() == 8 && color_of(s) is Some ==> {
            &&& color_of(s)->0.len() == 4
            &&& Some(color_of(s)->0[0]) == hex_byte(s[0], s[1])
            &&& Some(color_of(s)->0[1]) == hex_byte(s[2], s[3])
            &&& Some(color_of(s)->0[2]) == hex_byte(s[4], s[5])
            &&& Some(color_of(s)->0[3]) == hex_byte(s[6], s[7])
        },
        color_of(s) is Some <==> (s.len() == 6 || s.len() == 8) && forall|i: int|
            0 <= i < s.len() ==> '0' <= #[trigger] s[i] <= '9' || 'a' <= s[i] <= 'f' || 'A' <= s[i]
                <= 'F',
{
    let with = seq!['#'] + s;
    let (from, _) = crate::text::characters_are_taken_off_the_ends(s, '#');
    let (with_from, _) = crate::text::characters_are_taken_off_the_ends(with, '#');
    assert(from == 0) by {
        if from > 0 {
            assert(s[0] == '#');
        }
    }
    assert(with_from == 1) by {
        assert(with[0] == '#');
        if with_from > 1 {
            assert(with[1] == '#');
            assert(with[1] == s[0]);
        }
    }
    assert(s.skip(0) =~= s);
    assert(with.skip(1) =~= s);
    if s.len() == 6 && color_of(s) is Some {
        assert(hex_byte(s[0], s[1]) is Some);
        assert(hex_byte(s[2], s[3]) is Some);
        assert(hex_byte(s[4], s[5]) is Some);
    }
    if s.len() == 8 && color_of(s) is Some {
        assert(hex_byte(s[0], s[1]) is Some);
        assert(hex_byte(s[2], s[3]) is Some);
        assert(hex_byte(s[4], s[5]) is Some);
        assert(hex_byte(s[6], s[7]) is Some);
    }
}
} // verus!
