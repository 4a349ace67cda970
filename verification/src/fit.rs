//! Fitting a section into the view.
use vstd::prelude::*;

use crate::scalar::{clamp, clamped, num, ordered, Pixels, Scalar};

verus! {

/// The space kept beside a section, less than the gaps where the section is almost as wide as the
/// view.
pub open spec fn fit_padding<N: Scalar>(view_span: N, section_span: N, gaps: N) -> N {
    clamped((view_span - section_span).spec_div(num::<N>(2)), num::<N>(0), gaps)
}

/// Whether a section, with its padding, lies inside of the view.
pub open spec fn fits_in_view<N: Scalar>(
    view_main: N,
    view_span: N,
    section_main: N,
    section_span: N,
    gaps: N,
) -> bool {
    let padding = fit_padding(view_span, section_span, gaps);
    &&& view_main <= section_main - padding
    &&& section_main + section_span + padding <= view_main + view_span
}

/// The offset from a section to a view that shows it, with the least movement of the view.
pub open spec fn fitting_view_offset<N: Scalar>(
    view_main: N,
    view_span: N,
    section_main: N,
    section_span: N,
    gaps: N,
) -> N {
    let padding = fit_padding(view_span, section_span, gaps);
    let start = section_main - padding;
    let end = section_main + section_span + padding;
    if view_span <= section_span {
        num::<N>(0)
    } else if fits_in_view(view_main, view_span, section_main, section_span, gaps) {
        (section_main - view_main).spec_neg()
    } else if (view_main - start).spec_abs() <= ((view_main + view_span) - end).spec_abs() {
        padding.spec_neg()
    } else {
        (view_span - padding - section_span).spec_neg()
    }
}

/// Computes the offset from a section to a view that shows it, with the least movement.
pub fn compute_new_view_offset<N: Scalar>(
    current_view_main: N,
    view_main_span: N,
    new_section_main: N,
    new_section_span: N,
    gaps: N,
) -> (r: N)
    requires
        num::<N>(0) <= gaps,
    ensures
        r == fitting_view_offset(
            current_view_main,
            view_main_span,
            new_section_main,
            new_section_span,
            gaps,
        ),
{
    // A section wider than the view is always aligned to the start.
    if view_main_span.le(new_section_span) {
        return N::of_int(0);
    }
    let padding = clamp(
        view_main_span.sub(new_section_span).div(N::of_int(2)),
        N::of_int(0),
        gaps,
    );
    let desired_start = new_section_main.sub(padding);
    let desired_end = new_section_main.add(new_section_span).add(padding);

    // A section that is fully visible leaves the view as it is.
    if current_view_main.le(desired_start) && desired_end.le(
        current_view_main.add(view_main_span),
    ) {
        return new_section_main.sub(current_view_main).neg();
    }
    let dist_to_start = current_view_main.sub(desired_start).abs();
    let dist_to_end = current_view_main.add(view_main_span).sub(desired_end).abs();
    if dist_to_start.le(dist_to_end) {
        padding.neg()
    } else {
        view_main_span.sub(padding).sub(new_section_span).neg()
    }
}

/// A section wider than the view is aligned to the start of the view.
pub proof fn law_wide_section_is_aligned_to_start<N: Scalar>(
    view_main: N,
    view_span: N,
    section_main: N,
    section_span: N,
    gaps: N,
)
    requires
        view_span <= section_span,
    ensures
        fitting_view_offset(view_main, view_span, section_main, section_span, gaps) == num::<N>(0),
{
}

/// A section that is already fully visible leaves the view where it is (in whole pixels that do
/// not leave their range).
pub proof fn law_visible_section_leaves_view(
    view_main: Pixels,
    view_span: Pixels,
    section_main: Pixels,
    section_span: Pixels,
    gaps: Pixels,
)
    requires
        view_span.value > section_span.value,
        fits_in_view(view_main, view_span, section_main, section_span, gaps),
        i64::MIN < section_main.value - view_main.value <= i64::MAX,
    ensures
        section_main.spec_add(
            fitting_view_offset(view_main, view_span, section_main, section_span, gaps),
        ) == view_main,
{
}

/// A section that is narrower than the view is fully visible afterwards (in whole pixels that do
/// not leave their range).
pub proof fn law_fitted_section_is_visible(
    view_main: Pixels,
    view_span: Pixels,
    section_main: Pixels,
    section_span: Pixels,
    gaps: Pixels,
)
    requires
        0 <= gaps.value <= 0x1000_0000_0000,
        0 <= section_span.value < view_span.value <= 0x1000_0000_0000,
        -0x1000_0000_0000 <= section_main.value <= 0x1000_0000_0000,
        -0x1000_0000_0000 <= view_main.value <= 0x1000_0000_0000,
    ensures
        ({
            let offset = fitting_view_offset(
                view_main,
                view_span,
                section_main,
                section_span,
                gaps,
            );
            fits_in_view(
                section_main.spec_add(offset),
                view_span,
                section_main,
                section_span,
                gaps,
            )
        }),
{
}

/// Fitting moves the view as little as aligning either edge of the section would: where the section
/// was not visible, the nearer of the two alignments is taken.
pub proof fn law_nearer_alignment_is_taken<N: Scalar>(
    view_main: N,
    view_span: N,
    section_main: N,
    section_span: N,
    gaps: N,
)
    requires
        ordered::<N>(),
        section_span < view_span,
        !fits_in_view(view_main, view_span, section_main, section_span, gaps),
    ensures
        ({
            let padding = fit_padding(view_span, section_span, gaps);
            let to_start = (view_main - (section_main - padding)).spec_abs();
            let to_end = ((view_main + view_span) - (section_main + section_span
                + padding)).spec_abs();
            let offset = fitting_view_offset(
                view_main,
                view_span,
                section_main,
                section_span,
                gaps,
            );
            &&& to_start <= to_end ==> offset == padding.spec_neg()
            &&& to_end < to_start ==> offset == (view_span - padding - section_span).spec_neg()
        }),
{
}

} // verus!
