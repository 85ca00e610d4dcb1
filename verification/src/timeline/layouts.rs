//! From the layouts of a schedule to the layouts of scenes.

use vstd::prelude::*;

use super::models::{
    element_views, LayoutDefinition, LayoutDefinitionView, LayoutElement, LayoutElementView,
};
use crate::cms::{LayoutDto, LayoutElementDto};
use crate::sort::{
    precedes, sorted_by_keys, sorting_permutes, stable_order, stable_order_is_stable, stable_sort,
    SortKey,
};
use crate::text::{opt_text, same_text};

verus! {

/// The element that an element of a schedule becomes.
pub open spec fn element_of(el: LayoutElementDto) -> LayoutElementView {
    LayoutElementView {
        id: el.id@,
        x: el.x,
        y: el.y,
        width: el.width,
        height: el.height,
        element_type: el.element_type@,
        keep_aspect_ratio: el.keep_aspect_ratio,
        file_id: el.file_id,
        content: opt_text(el.content),
        font: opt_text(el.font),
        font_size: el.font_size,
        bold: el.bold,
        italic: el.italic,
        underline: el.underline,
        strikethrough: el.strikethrough,
        background_color: opt_text(el.background_color),
        text_color: opt_text(el.text_color),
        border_color: opt_text(el.border_color),
        border_width: el.border_width,
        z_index: el.z_index,
    }
}

/// The elements that the elements of a schedule become.
pub open spec fn elements_of(els: Seq<LayoutElementDto>) -> Seq<LayoutElementView> {
    Seq::new(els.len(), |i: int| element_of(els[i]))
}

/// Whether an element is a video.
pub open spec fn is_video(e: LayoutElementView) -> bool {
    e.element_type == "video"@
}

/// Where an element stands in the order of drawing.
pub open spec fn depth(e: LayoutElementView) -> i32 {
    match e.z_index {
        Some(z) => z,
        None => 0,
    }
}

/// The uppermost video: the last one of those with the highest depth.
pub open spec fn top_video(elements: Seq<LayoutElementView>) -> Option<int>
    decreases elements.len(),
{
    if elements.len() == 0 {
        None
    } else {
        let before = top_video(elements.drop_last());
        let here = elements.len() - 1;
        if !is_video(elements.last()) {
            before
        } else {
            match before {
                Some(i) => if depth(elements[i]) <= depth(elements[here]) {
                    Some(here)
                } else {
                    before
                },
                None => Some(here),
            }
        }
    }
}

/// The elements without the videos that stand elsewhere than at `keep`.
pub open spec fn without_other_videos(elements: Seq<LayoutElementView>, keep: int) -> Seq<
    LayoutElementView,
>
    decreases elements.len(),
{
    if elements.len() == 0 {
        Seq::empty()
    } else {
        let before = without_other_videos(elements.drop_last(), keep);
        if !is_video(elements.last()) || elements.len() - 1 == keep {
            before.push(elements.last())
        } else {
            before
        }
    }
}

/// The elements with no video but the uppermost.
pub open spec fn with_single_video(elements: Seq<LayoutElementView>) -> Seq<LayoutElementView> {
    match top_video(elements) {
        Some(i) => without_other_videos(elements, i),
        None => elements,
    }
}

/// The keys by which elements are drawn in order.
pub open spec fn depth_keys(elements: Seq<LayoutElementView>) -> Seq<SortKey> {
    Seq::new(elements.len(), |i: int| (depth(elements[i]) as i64, 0i64, 0i64))
}

/// The elements in the order of drawing.
pub open spec fn in_drawing_order(elements: Seq<LayoutElementView>) -> Seq<LayoutElementView> {
    sorted_by_keys(elements, depth_keys(elements))
}

/// The layout that a layout of a schedule becomes.
pub open spec fn layout_of(dto: LayoutDto) -> LayoutDefinitionView {
    LayoutDefinitionView {
        id: dto.id,
        name: dto.name@,
        group_name: opt_text(dto.group_name),
        width: dto.width,
        height: dto.height,
        elements: in_drawing_order(with_single_video(elements_of(dto.layout@))),
        default_duration: dto.default_duration,
    }
}

/// The element that an element of a schedule becomes.
pub fn element_to_domain(el: &LayoutElementDto) -> (r: LayoutElement)
    ensures
        r@ == element_of(*el),
        r.id@ == el.id@,
        r.x == el.x,
        r.y == el.y,
        r.width == el.width,
        r.height == el.height,
        r.element_type@ == el.element_type@,
        r.keep_aspect_ratio == el.keep_aspect_ratio,
        r.file_id == el.file_id,
        r.font_size == el.font_size,
        r.bold == el.bold,
        r.italic == el.italic,
        r.underline == el.underline,
        r.strikethrough == el.strikethrough,
        r.border_width == el.border_width,
        r.z_index == el.z_index,
{
    LayoutElement {
        id: el.id.clone(),
        x: el.x,
        y: el.y,
        width: el.width,
        height: el.height,
        element_type: el.element_type.clone(),
        keep_aspect_ratio: el.keep_aspect_ratio,
        file_id: el.file_id,
        content: el.content.clone(),
        font: el.font.clone(),
        font_size: el.font_size,
        bold: el.bold,
        italic: el.italic,
        underline: el.underline,
        strikethrough: el.strikethrough,
        background_color: el.background_color.clone(),
        text_color: el.text_color.clone(),
        border_color: el.border_color.clone(),
        border_width: el.border_width,
        z_index: el.z_index,
    }
}

fn element_depth(e: &LayoutElement) -> (r: i32)
    ensures
        r == depth(e@),
{
    match e.z_index {
        Some(z) => z,
        None => 0,
    }
}

proof fn lemma_top_video(elements: Seq<LayoutElementView>)
    ensures
        top_video(elements) matches Some(i) ==> {
            &&& 0 <= i < elements.len()
            &&& is_video(elements[i])
            &&& forall|j: int|
                0 <= j < elements.len() && is_video(#[trigger] elements[j]) ==> depth(elements[j])
                    <= depth(elements[i])
            &&& forall|j: int|
                i < j < elements.len() && is_video(#[trigger] elements[j]) ==> depth(elements[j])
                    < depth(elements[i])
        },
        top_video(elements) is None ==> forall|j: int|
            0 <= j < elements.len() ==> !is_video(#[trigger] elements[j]),
    decreases elements.len(),
{
    if elements.len() > 0 {
        let shorter = elements.drop_last();
        lemma_top_video(shorter);
        assert forall|j: int|
            0 <= j < elements.len() && is_video(#[trigger] elements[j]) implies top_video(
            elements,
        ) is Some && depth(elements[j]) <= depth(elements[top_video(elements)->0]) && (
        top_video(elements)->0 < j ==> depth(elements[j]) < depth(
            elements[top_video(elements)->0],
        )) by {
            if j < shorter.len() {
                assert(shorter[j] == elements[j]);
            }
        }
    }
}

/// Leaves out every video but the uppermost; other elements stay.
pub fn retain_single_video(elements: &mut Vec<LayoutElement>)
    ensures
        element_views(final(elements)@) == with_single_video(element_views(old(elements)@)),
{
    let ghost views = element_views(elements@);
    let mut top: Option<usize> = None;
    let mut i: usize = 0;
    proof {
        assert(views.take(0) =~= Seq::empty());
    }
    while i < elements.len()
        invariant
            i <= elements@.len(),
            views == element_views(elements@),
            top_video(views.take(i as int)) == (match top {
                Some(t) => Some(t as int),
                None => None,
            }),
            top matches Some(t) ==> t < i,
        decreases elements@.len() - i,
    {
        proof {
            assert(views.take(i + 1).drop_last() =~= views.take(i as int));
            assert(views[i as int] == elements@[i as int]@);
        }
        if same_text(elements[i].element_type.as_str(), "video") {
            top = match top {
                Some(t) => if element_depth(&elements[t]) <= element_depth(&elements[i]) {
                    Some(i)
                } else {
                    Some(t)
                },
                None => Some(i),
            };
        }
        i = i + 1;
    }
    proof {
        assert(views.take(i as int) =~= views);
    }
    let keep: usize = match top {
        Some(t) => t,
        None => {
            return;
        },
    };
    let mut kept: Vec<LayoutElement> = Vec::new();
    let mut j: usize = 0;
    proof {
        assert(element_views(kept@) =~= without_other_videos(views.take(0), keep as int));
    }
    while j < elements.len()
        invariant
            j <= elements@.len(),
            views == element_views(elements@),
            element_views(kept@) == without_other_videos(views.take(j as int), keep as int),
        decreases elements@.len() - j,
    {
        let ghost so_far = element_views(kept@);
        proof {
            assert(views.take(j + 1).drop_last() =~= views.take(j as int));
            assert(views[j as int] == elements@[j as int]@);
        }
        if j == keep || !same_text(elements[j].element_type.as_str(), "video") {
            kept.push(elements[j].clone());
            assert(element_views(kept@) =~= so_far.push(views[j as int]));
        }
        j = j + 1;
    }
    proof {
        assert(views.take(j as int) =~= views);
    }
    *elements = kept;
}

/// Sorting models is sorting what they are models of.
proof fn lemma_sorted_views(elements: Seq<LayoutElement>, keys: Seq<SortKey>)
    requires
        elements.len() == keys.len(),
    ensures
        element_views(sorted_by_keys(elements, keys)) == sorted_by_keys(
            element_views(elements),
            keys,
        ),
{
    stable_order_is_stable(keys);
    let order = stable_order(keys);
    assert forall|j: int| 0 <= j < order.len() implies sorted_by_keys(elements, keys)[j]@
        == element_views(elements)[order[j]] by {
        assert(0 <= order[j] < elements.len());
    }
    assert(element_views(sorted_by_keys(elements, keys)) =~= sorted_by_keys(
        element_views(elements),
        keys,
    ));
}

/// Puts elements in the order of drawing; those of one depth stay in the order that they had.
pub fn sort_elements(elements: Vec<LayoutElement>) -> (r: Vec<LayoutElement>)
    ensures
        element_views(r@) == in_drawing_order(element_views(elements@)),
{
    let mut keys: Vec<SortKey> = Vec::new();
    let mut k: usize = 0;
    while k < elements.len()
        invariant
            k <= elements@.len(),
            keys@.len() == k,
            forall|j: int| 0 <= j < k ==> #[trigger] keys@[j] == depth_keys(element_views(elements@))[j],
        decreases elements@.len() - k,
    {
        keys.push((element_depth(&elements[k]) as i64, 0i64, 0i64));
        k = k + 1;
    }
    proof {
        assert(keys@ =~= depth_keys(element_views(elements@)));
        lemma_sorted_views(elements@, keys@);
    }
    stable_sort(elements, &keys)
}

/// The layout that a layout of a schedule becomes: with one video at most, its elements in the
/// order of drawing.
pub fn layout_to_domain(dto: &LayoutDto) -> (r: LayoutDefinition)
    ensures
        r@ == layout_of(*dto),
        r.id == dto.id,
        r.name@ == dto.name@,
        r.width == dto.width,
        r.height == dto.height,
        r.default_duration == dto.default_duration,
{
    let mut elements: Vec<LayoutElement> = Vec::new();
    let mut i: usize = 0;
    while i < dto.layout.len()
        invariant
            i <= dto.layout@.len(),
            elements@.len() == i,
            forall|j: int| 0 <= j < i ==> (#[trigger] elements@[j])@ == element_of(dto.layout@[j]),
        decreases dto.layout@.len() - i,
    {
        elements.push(element_to_domain(&dto.layout[i]));
        i = i + 1;
    }
    proof {
        assert(element_views(elements@) =~= elements_of(dto.layout@));
    }
    retain_single_video(&mut elements);
    let elements: Vec<LayoutElement> = sort_elements(elements);
    LayoutDefinition {
        id: dto.id,
        name: dto.name.clone(),
        group_name: dto.group_name.clone(),
        width: dto.width,
        height: dto.height,
        elements,
        default_duration: dto.default_duration,
    }
}

/// The predicate that holds of videos.
pub open spec fn videos() -> spec_fn(LayoutElementView) -> bool {
    |e: LayoutElementView| is_video(e)
}

/// The predicate that holds of whatever is no video.
pub open spec fn no_videos() -> spec_fn(LayoutElementView) -> bool {
    |e: LayoutElementView| !is_video(e)
}

proof fn lemma_without_other_videos(elements: Seq<LayoutElementView>, keep: int)
    requires
        0 <= keep < elements.len() ==> is_video(elements[keep]),
    ensures
        without_other_videos(elements, keep).filter(no_videos()) == elements.filter(no_videos()),
        without_other_videos(elements, keep).filter(videos()) == if 0 <= keep < elements.len() {
            seq![elements[keep]]
        } else {
            Seq::empty()
        },
    decreases elements.len(),
{
    reveal(Seq::filter);
    if elements.len() > 0 {
        let shorter = elements.drop_last();
        let before = without_other_videos(shorter, keep);
        let out = without_other_videos(elements, keep);
        lemma_without_other_videos(shorter, keep);
        if !is_video(elements.last()) || elements.len() - 1 == keep {
            assert(out.drop_last() =~= before);
            assert(out.last() == elements.last());
        }
        assert(out.filter(videos()) =~= if 0 <= keep < elements.len() {
            seq![elements[keep]]
        } else {
            Seq::empty()
        });
    }
}

proof fn lemma_no_video(elements: Seq<LayoutElementView>)
    requires
        forall|j: int| 0 <= j < elements.len() ==> !is_video(#[trigger] elements[j]),
    ensures
        elements.filter(videos()) == Seq::<LayoutElementView>::empty(),
    decreases elements.len(),
{
    reveal(Seq::filter);
    if elements.len() > 0 {
        let shorter = elements.drop_last();
        assert forall|j: int| 0 <= j < shorter.len() implies !is_video(#[trigger] shorter[j]) by {
            assert(shorter[j] == elements[j]);
        }
        lemma_no_video(shorter);
    }
}

/// A layout keeps whatever is no video, as often and in the order in which it is listed. Of its
/// videos it keeps exactly one, above which no other lies, and none where it has none.
pub proof fn layout_keeps_one_video(elements: Seq<LayoutElementView>)
    ensures
        ({
            let kept = with_single_video(elements);
            &&& kept.filter(no_videos()) == elements.filter(no_videos())
            &&& match top_video(elements) {
                Some(t) => {
                    &&& 0 <= t < elements.len()
                    &&& is_video(elements[t])
                    &&& kept.filter(videos()) == seq![elements[t]]
                    &&& forall|j: int|
                        0 <= j < elements.len() && is_video(#[trigger] elements[j]) ==> depth(
                            elements[j],
                        ) <= depth(elements[t])
                },
                None => {
                    &&& kept.filter(videos()) == Seq::<LayoutElementView>::empty()
                    &&& forall|j: int| 0 <= j < elements.len() ==> !is_video(#[trigger] elements[j])
                },
            }
        }),
{
    lemma_top_video(elements);
    match top_video(elements) {
        Some(t) => lemma_without_other_videos(elements, t),
        None => lemma_no_video(elements),
    }
}

/// The elements of a layout are drawn in ascending order of depth, those of equal depth in the
/// order in which the schedule lists them, and sorting neither adds nor drops any.
pub proof fn layout_is_in_drawing_order(elements: Seq<LayoutElementView>)
    ensures
        in_drawing_order(elements).len() == elements.len(),
        in_drawing_order(elements).to_multiset() == elements.to_multiset(),
        forall|i: int, j: int|
            0 <= i < j < elements.len() ==> {
                let a = #[trigger] in_drawing_order(elements)[i];
                let b = #[trigger] in_drawing_order(elements)[j];
                let order = stable_order(depth_keys(elements));
                &&& 0 <= order[i] < elements.len() && a == elements[order[i]]
                &&& 0 <= order[j] < elements.len() && b == elements[order[j]]
                &&& depth(a) <= depth(b)
                &&& depth(a) == depth(b) ==> order[i] < order[j]
            },
{
    let keys = depth_keys(elements);
    sorting_permutes(elements, keys);
    stable_order_is_stable(keys);
    let order = stable_order(keys);
    assert forall|i: int, j: int| 0 <= i < j < elements.len() implies {
        let a = #[trigger] in_drawing_order(elements)[i];
        let b = #[trigger] in_drawing_order(elements)[j];
        &&& 0 <= order[i] < elements.len() && a == elements[order[i]]
        &&& 0 <= order[j] < elements.len() && b == elements[order[j]]
        &&& depth(a) <= depth(b)
        &&& depth(a) == depth(b) ==> order[i] < order[j]
    } by {
        assert(0 <= order[i] < elements.len() && 0 <= order[j] < elements.len());
        assert(precedes(keys, order[i], order[j]));
    }
}

proof fn lemma_kept_elements(elements: Seq<LayoutElementView>, keep: int)
    requires
        0 <= keep < elements.len() ==> is_video(elements[keep]),
    ensures
        ({
            let out = without_other_videos(elements, keep);
            &&& out.len() <= elements.len()
            &&& forall|k: int|
                0 <= k < out.len() ==> elements.contains(#[trigger] out[k]) && (is_video(out[k])
                    ==> 0 <= keep < elements.len() && out[k] == elements[keep])
            &&& forall|j: int|
                0 <= j < elements.len() && (!is_video(elements[j]) || j == keep) ==> out.contains(
                    #[trigger] elements[j],
                )
            &&& forall|k: int, l: int|
                0 <= k < out.len() && 0 <= l < out.len() && is_video(#[trigger] out[k]) && is_video(
                    #[trigger] out[l],
                ) ==> k == l
        }),
    decreases elements.len(),
{
    if elements.len() > 0 {
        let shorter = elements.drop_last();
        let n = elements.len() - 1;
        let before = without_other_videos(shorter, keep);
        let out = without_other_videos(elements, keep);
        lemma_kept_elements(shorter, keep);
        assert forall|k: int| 0 <= k < out.len() implies elements.contains(#[trigger] out[k]) && (
        is_video(out[k]) ==> 0 <= keep < elements.len() && out[k] == elements[keep]) by {
            if k < before.len() {
                assert(out[k] == before[k]);
                assert(shorter.contains(before[k]));
                let j = choose|j: int| 0 <= j < shorter.len() && shorter[j] == before[k];
                assert(elements[j] == out[k]);
            } else {
                assert(elements[n] == out[k]);
            }
        }
        assert forall|j: int|
            0 <= j < elements.len() && (!is_video(elements[j]) || j == keep) implies out.contains(
            #[trigger] elements[j],
        ) by {
            if j < n {
                assert(shorter[j] == elements[j]);
                assert(before.contains(shorter[j]));
                let k = choose|k: int| 0 <= k < before.len() && before[k] == elements[j];
                assert(out[k] == elements[j]);
            } else {
                assert(out[before.len() as int] == elements[j]);
            }
        }
        assert forall|k: int, l: int|
            0 <= k < out.len() && 0 <= l < out.len() && is_video(#[trigger] out[k]) && is_video(
                #[trigger] out[l],
            ) implies k == l by {
            if k < before.len() {
                assert(out[k] == before[k]);
            }
            if l < before.len() {
                assert(out[l] == before[l]);
            }
        }
    }
}

proof fn lemma_order_kept(elements: Seq<LayoutElementView>, keep: int, a: int, b: int) -> (r: (
    int,
    int,
))
    requires
        0 <= a < b < elements.len(),
        !is_video(elements[a]) || a == keep,
        !is_video(elements[b]) || b == keep,
    ensures
        0 <= r.0 < r.1 < without_other_videos(elements, keep).len(),
        without_other_videos(elements, keep)[r.0] == elements[a],
        without_other_videos(elements, keep)[r.1] == elements[b],
    decreases elements.len(),
{
    let shorter = elements.drop_last();
    let before = without_other_videos(shorter, keep);
    let out = without_other_videos(elements, keep);
    if b < shorter.len() {
        let r = lemma_order_kept(shorter, keep, a, b);
        assert(out[r.0] == before[r.0] && out[r.1] == before[r.1]);
        r
    } else {
        assert(shorter[a] == elements[a]);
        let k = lemma_place_kept(shorter, keep, a);
        assert(out[k] == before[k]);
        (k, before.len() as int)
    }
}

proof fn lemma_place_kept(elements: Seq<LayoutElementView>, keep: int, a: int) -> (k: int)
    requires
        0 <= a < elements.len(),
        !is_video(elements[a]) || a == keep,
    ensures
        0 <= k < without_other_videos(elements, keep).len(),
        without_other_videos(elements, keep)[k] == elements[a],
    decreases elements.len(),
{
    let shorter = elements.drop_last();
    let before = without_other_videos(shorter, keep);
    let out = without_other_videos(elements, keep);
    if a < shorter.len() {
        let k = lemma_place_kept(shorter, keep, a);
        assert(out[k] == before[k]);
        k
    } else {
        before.len() as int
    }
}

proof fn lemma_placed(elements: Seq<LayoutElementView>, p: int) -> (k: int)
    requires
        0 <= p < elements.len(),
    ensures
        0 <= k < in_drawing_order(elements).len(),
        in_drawing_order(elements)[k] == elements[p],
{
    let order = stable_order(depth_keys(elements));
    stable_order_is_stable(depth_keys(elements));
    assert(order.contains(p));
    let k = choose|k: int| 0 <= k < order.len() && order[k] == p;
    k
}

proof fn lemma_placed_both(elements: Seq<LayoutElementView>, p: int, q: int) -> (r: (int, int))
    requires
        0 <= p < q < elements.len(),
        depth(elements[p]) <= depth(elements[q]),
    ensures
        0 <= r.0 < r.1 < in_drawing_order(elements).len(),
        in_drawing_order(elements)[r.0] == elements[p],
        in_drawing_order(elements)[r.1] == elements[q],
{
    let keys = depth_keys(elements);
    let order = stable_order(keys);
    stable_order_is_stable(keys);
    assert(order.contains(p));
    assert(order.contains(q));
    let k = choose|k: int| 0 <= k < order.len() && order[k] == p;
    let l = choose|l: int| 0 <= l < order.len() && order[l] == q;
    if l < k {
        assert(precedes(keys, order[l], order[k]));
    }
    (k, l)
}

/// Every element of a layout is one of those that the schedule lists, and is in every respect what
/// the schedule says: where it stands, how large it is, what it shows and how.
pub proof fn elements_are_as_scheduled(dto: LayoutDto)
    ensures
        layout_of(dto).elements.len() <= dto.layout@.len(),
        forall|k: int|
            #![trigger layout_of(dto).elements[k]]
            0 <= k < layout_of(dto).elements.len() ==> exists|j: int|
                #![trigger dto.layout@[j]]
                {
                    let e = layout_of(dto).elements[k];
                    let el = dto.layout@[j];
                    &&& 0 <= j < dto.layout@.len()
                    &&& e.id == el.id@
                    &&& e.x == el.x
                    &&& e.y == el.y
                    &&& e.width == el.width
                    &&& e.height == el.height
                    &&& e.element_type == el.element_type@
                    &&& e.keep_aspect_ratio == el.keep_aspect_ratio
                    &&& e.file_id == el.file_id
                    &&& e.content is Some <==> el.content is Some
                    &&& el.content matches Some(text) ==> e.content == Some(text@)
                    &&& e.font is Some <==> el.font is Some
                    &&& el.font matches Some(text) ==> e.font == Some(text@)
                    &&& e.font_size == el.font_size
                    &&& e.bold == el.bold
                    &&& e.italic == el.italic
                    &&& e.underline == el.underline
                    &&& e.strikethrough == el.strikethrough
                    &&& e.background_color is Some <==> el.background_color is Some
                    &&& el.background_color matches Some(text) ==> e.background_color == Some(text@)
                    &&& e.text_color is Some <==> el.text_color is Some
                    &&& el.text_color matches Some(text) ==> e.text_color == Some(text@)
                    &&& e.border_color is Some <==> el.border_color is Some
                    &&& el.border_color matches Some(text) ==> e.border_color == Some(text@)
                    &&& e.border_width == el.border_width
                    &&& e.z_index == el.z_index
                },
{
    let all = elements_of(dto.layout@);
    let kept = with_single_video(all);
    let out = layout_of(dto).elements;
    let order = stable_order(depth_keys(kept));
    stable_order_is_stable(depth_keys(kept));
    lemma_top_video(all);
    if let Some(t) = top_video(all) {
        lemma_kept_elements(all, t);
    }
    assert forall|k: int| #![trigger out[k]] 0 <= k < out.len() implies exists|j: int|
        #![trigger dto.layout@[j]]
        0 <= j < dto.layout@.len() && out[k] == element_of(dto.layout@[j]) by {
        assert(0 <= order[k] < kept.len());
        assert(out[k] == kept[order[k]]);
        assert(all.contains(kept[order[k]]));
        let j = choose|j: int| 0 <= j < all.len() && all[j] == out[k];
        assert(dto.layout@[j] == dto.layout@[j]);
        assert(out[k] == element_of(dto.layout@[j]));
    }
}

/// Whatever the schedule lists that is no video stands in the layout, where the schedule puts it and
/// as large as the schedule says.
pub proof fn elements_are_not_lost(dto: LayoutDto, j: int)
    requires
        0 <= j < dto.layout@.len(),
        dto.layout@[j].element_type@ != "video"@,
    ensures
        exists|k: int|
            0 <= k < layout_of(dto).elements.len() && {
                let e = #[trigger] layout_of(dto).elements[k];
                let el = dto.layout@[j];
                &&& e.id == el.id@
                &&& e.x == el.x
                &&& e.y == el.y
                &&& e.width == el.width
                &&& e.height == el.height
                &&& e.element_type == el.element_type@
                &&& e.file_id == el.file_id
                &&& e.z_index == el.z_index
            },
{
    let all = elements_of(dto.layout@);
    let kept = with_single_video(all);
    lemma_top_video(all);
    let p = match top_video(all) {
        Some(t) => lemma_place_kept(all, t, j),
        None => j,
    };
    let k = lemma_placed(kept, p);
    assert(layout_of(dto).elements[k] == element_of(dto.layout@[j]));
}

/// Elements are drawn from the lowest to the highest `z_index`, where none counts as 0. Of two that
/// are no videos and lie equally high, the one that the schedule lists first is drawn first.
pub proof fn elements_are_drawn_by_z_index(dto: LayoutDto)
    ensures
        forall|k: int, l: int|
            0 <= k < l < layout_of(dto).elements.len() ==> {
                let below: i32 = match (#[trigger] layout_of(dto).elements[k]).z_index {
                    Some(z) => z,
                    None => 0,
                };
                let above: i32 = match (#[trigger] layout_of(dto).elements[l]).z_index {
                    Some(z) => z,
                    None => 0,
                };
                below <= above
            },
        forall|a: int, b: int|
            0 <= a < b < dto.layout@.len() && dto.layout@[a].element_type@ != "video"@
                && dto.layout@[b].element_type@ != "video"@ && dto.layout@[a].z_index
                == dto.layout@[b].z_index ==> exists|k: int, l: int|
                0 <= k < l < layout_of(dto).elements.len() && (
                #[trigger] layout_of(dto).elements[k]).id == (#[trigger] dto.layout@[a]).id@ && (
                #[trigger] layout_of(dto).elements[l]).id == (#[trigger] dto.layout@[b]).id@,
{
    let all = elements_of(dto.layout@);
    let kept = with_single_video(all);
    layout_is_in_drawing_order(kept);
    lemma_top_video(all);
    assert forall|a: int, b: int|
        0 <= a < b < dto.layout@.len() && dto.layout@[a].element_type@ != "video"@
            && dto.layout@[b].element_type@ != "video"@ && dto.layout@[a].z_index
            == dto.layout@[b].z_index implies exists|k: int, l: int|
        0 <= k < l < layout_of(dto).elements.len() && (#[trigger] layout_of(dto).elements[k]).id
            == (#[trigger] dto.layout@[a]).id@ && (#[trigger] layout_of(dto).elements[l]).id == (
        #[trigger] dto.layout@[b]).id@ by {
        assert(all[a] == element_of(dto.layout@[a]) && all[b] == element_of(dto.layout@[b]));
        let p = match top_video(all) {
            Some(t) => lemma_order_kept(all, t, a, b),
            None => (a, b),
        };
        let q = lemma_placed_both(kept, p.0, p.1);
        assert(layout_of(dto).elements[q.0].id == dto.layout@[a].id@);
        assert(layout_of(dto).elements[q.1].id == dto.layout@[b].id@);
    }
}

/// Of the videos that the schedule lists, one is in the layout: the one with the highest `z_index`,
/// where none counts as 0, and of several that lie equally high the one that is listed last.
pub proof fn the_uppermost_video_is_shown(dto: LayoutDto, t: int)
    requires
        0 <= t < dto.layout@.len(),
        dto.layout@[t].element_type@ == "video"@,
        forall|j: int|
            0 <= j < dto.layout@.len() && (#[trigger] dto.layout@[j]).element_type@ == "video"@ ==> {
                let z: i32 = match dto.layout@[j].z_index {
                    Some(z) => z,
                    None => 0,
                };
                let top: i32 = match dto.layout@[t].z_index {
                    Some(z) => z,
                    None => 0,
                };
                z < top || (z == top && j <= t)
            },
    ensures
        exists|k: int|
            0 <= k < layout_of(dto).elements.len() && {
                let e = #[trigger] layout_of(dto).elements[k];
                let el = dto.layout@[t];
                &&& e.id == el.id@
                &&& e.x == el.x
                &&& e.y == el.y
                &&& e.width == el.width
                &&& e.height == el.height
                &&& e.element_type == "video"@
                &&& e.file_id == el.file_id
                &&& e.z_index == el.z_index
            },
        forall|k: int, l: int|
            0 <= k < layout_of(dto).elements.len() && 0 <= l < layout_of(dto).elements.len() && (
            #[trigger] layout_of(dto).elements[k]).element_type == "video"@ && (
            #[trigger] layout_of(dto).elements[l]).element_type == "video"@ ==> k == l,
{
    let all = elements_of(dto.layout@);
    let kept = with_single_video(all);
    lemma_top_video(all);
    assert(is_video(all[t]));
    let s = top_video(all)->0;
    assert(all[s] == element_of(dto.layout@[s]));
    assert(dto.layout@[s].element_type@ == "video"@);
    assert(s == t);
    lemma_kept_elements(all, t);
    let p = lemma_place_kept(all, t, t);
    let k = lemma_placed(kept, p);
    assert(layout_of(dto).elements[k] == element_of(dto.layout@[t]));
    let out = layout_of(dto).elements;
    let keys = depth_keys(kept);
    let order = stable_order(keys);
    stable_order_is_stable(keys);
    assert forall|k: int, l: int|
        0 <= k < out.len() && 0 <= l < out.len() && (#[trigger] out[k]).element_type == "video"@ && (
        #[trigger] out[l]).element_type == "video"@ implies k == l by {
        assert(0 <= order[k] < kept.len() && 0 <= order[l] < kept.len());
        assert(is_video(kept[order[k]]) && is_video(kept[order[l]]));
        assert(order[k] == order[l]);
        if k < l {
            assert(precedes(keys, order[k], order[l]));
        } else if l < k {
            assert(precedes(keys, order[l], order[k]));
        }
    }
}

/// A layout keeps the id, the names, the size and the duration that the schedule gives it.
pub proof fn layouts_are_as_scheduled(dto: LayoutDto)
    ensures
        layout_of(dto).id == dto.id,
        layout_of(dto).name == dto.name@,
        dto.group_name matches Some(text) ==> layout_of(dto).group_name == Some(text@),
        dto.group_name is None ==> layout_of(dto).group_name is None,
        layout_of(dto).width == dto.width,
        layout_of(dto).height == dto.height,
        layout_of(dto).default_duration == dto.default_duration,
{
}
} // verus!
