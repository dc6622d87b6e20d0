//! Layout of the sections beside or below an empty box that an image fills.
use crate::configloader::ColorConfig;
use crate::renderer::{
    box_rows, build_box, build_sections_lines, lemma_section_height, lines_text, nat_max,
    render_side_by_side, sat_sub, sections_content_width, sections_total_height, sections_width,
    side_by_side_text, stack_height, stack_rows, terminal_dims, unified_width, views, write_lines,
    Section,
};
use vstd::prelude::*;

verus! {

/// The text of an image layout and where the image goes.
pub struct ImageLayout {
    /// The rows, each ended by a line break.
    pub text: String,
    /// Columns and rows of the image inside its box; none where the terminal
    /// has no room for the image.
    pub image: Option<(usize, usize)>,
}

/// Interior width of an image box beside the sections: twice the sections'
/// height, as a terminal cell is about twice as high as it is wide.
pub open spec fn beside_image_width(secs: Seq<Section>) -> nat {
    2 * stack_height(secs)
}

/// Height of an image box above the sections: half its full width, rounded up.
pub open spec fn above_image_height(secs: Seq<Section>) -> nat {
    (sections_width(secs) + 6 + 1) / 2
}

/// Whether an image box fits beside the sections.
pub open spec fn image_beside(secs: Seq<Section>, terminal: Option<(u16, u16)>) -> bool {
    terminal_dims(terminal).0 >= beside_image_width(secs) + 4 + 1 + sections_width(secs) + 4
}

/// Whether an image box fits above the sections: enough rows, and more than
/// eight columns for the image.
pub open spec fn image_above(secs: Seq<Section>, terminal: Option<(u16, u16)>) -> bool {
    terminal_dims(terminal).1 >= above_image_height(secs) + stack_height(secs)
        && sections_width(secs) > 8
}

/// The text of the image layout.
pub open spec fn image_layout_text(c: ColorConfig, secs: Seq<Section>, terminal: Option<(u16, u16)>) -> Seq<char> {
    let sw = sections_width(secs);
    let free = stack_rows(c, secs, sw as usize);
    if image_beside(secs, terminal) {
        side_by_side_text(
            box_rows(c, Seq::empty(), None, Some(beside_image_width(secs) as usize), Some(free.len() as usize), true),
            free,
        )
    } else if image_above(secs, terminal) {
        lines_text(box_rows(c, Seq::empty(), None, Some(sw as usize), Some(above_image_height(secs) as usize), true))
            + lines_text(stack_rows(c, secs, unified_width(secs, Some(sw as usize)) as usize))
    } else {
        lines_text(free)
    }
}

/// Columns and rows of the image: inside its box, less the two borders.
pub open spec fn image_area(secs: Seq<Section>, terminal: Option<(u16, u16)>) -> Option<(nat, nat)> {
    if image_beside(secs, terminal) {
        Some((beside_image_width(secs), sat_sub(stack_height(secs), 2)))
    } else if image_above(secs, terminal) {
        Some((sections_width(secs), sat_sub(above_image_height(secs), 2)))
    } else {
        None
    }
}

/// The sizes involved in an image layout fit the machine's integers.
pub open spec fn image_layout_within_limits(secs: Seq<Section>) -> bool {
    2 * stack_height(secs) + sections_width(secs) + 9 <= usize::MAX
}

proof fn lemma_stack_rows_len(c: ColorConfig, secs: Seq<Section>, w: usize)
    ensures
        stack_rows(c, secs, w).len() == stack_height(secs),
    decreases secs.len(),
{
    if secs.len() > 0 {
        lemma_stack_rows_len(c, secs.drop_last(), w);
    }
}

/// Lays out the sections beside an empty box for an image where the terminal
/// is wide enough, else below one where it is high enough, else alone; gives
/// the text and the size of the image inside its box.
pub fn draw_image_layout(sections: &[Section], terminal: Option<(u16, u16)>, colors: &ColorConfig) -> (r:
    ImageLayout)
    requires
        image_layout_within_limits(sections@),
    ensures
        r.text@ == image_layout_text(*colors, sections@, terminal),
        match r.image {
            Some(d) => image_area(sections@, terminal) == Some((d.0 as nat, d.1 as nat)),
            None => image_area(sections@, terminal) is None,
        },
{
    let ghost secs = sections@;
    let (terminal_width, terminal_height): (usize, usize) = match terminal {
        Some((cols, rows)) => (cols as usize, rows as usize),
        None => (80, 24),
    };
    let sections_width_now = sections_content_width(sections);
    let sections_height = sections_total_height(sections);
    proof {
        assert forall|j: int| 0 <= j < secs.len() implies #[trigger] secs[j].lines@.len() + 2
            <= usize::MAX by {
            lemma_section_height(secs, j);
        }
        lemma_stack_rows_len(*colors, secs, sections_width_now);
    }
    let image_content_width = 2 * sections_height;
    let side_by_side_total_width = image_content_width + 4 + 1 + sections_width_now + 4;
    let mut text = String::new();
    if terminal_width >= side_by_side_total_width {
        let sections_box = build_sections_lines(sections, None, colors);
        let empty: Vec<String> = Vec::new();
        let image_box = build_box(
            empty.as_slice(),
            None,
            Some(image_content_width),
            Some(sections_box.len()),
            true,
            colors,
        );
        proof {
            assert(views(empty@) =~= Seq::<Seq<char>>::empty());
        }
        render_side_by_side(image_box.as_slice(), sections_box.as_slice(), &mut text);
        let rows = if sections_box.len() >= 2 {
            sections_box.len() - 2
        } else {
            0
        };
        ImageLayout { text, image: Some((image_content_width, rows)) }
    } else {
        let image_box_total_height = (sections_width_now + 7) / 2;
        if terminal_height >= image_box_total_height + sections_height && sections_width_now > 8 {
            let empty: Vec<String> = Vec::new();
            let image_box = build_box(
                empty.as_slice(),
                None,
                Some(sections_width_now),
                Some(image_box_total_height),
                true,
                colors,
            );
            proof {
                assert(views(empty@) =~= Seq::<Seq<char>>::empty());
            }
            let sections_box = build_sections_lines(sections, Some(sections_width_now), colors);
            write_lines(image_box.as_slice(), &mut text);
            write_lines(sections_box.as_slice(), &mut text);
            let rows = if image_box_total_height >= 2 {
                image_box_total_height - 2
            } else {
                0
            };
            ImageLayout { text, image: Some((sections_width_now, rows)) }
        } else {
            let sections_box = build_sections_lines(sections, None, colors);
            write_lines(sections_box.as_slice(), &mut text);
            ImageLayout { text, image: None }
        }
    }
}

} // verus!
