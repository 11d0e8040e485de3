use vstd::prelude::*;

verus! {

/// An axis-aligned integer pixel rectangle.
#[derive(Clone, Copy, Debug, PartialEq, Eq)]
pub struct Rect {
    pub x: u32,
    pub y: u32,
    pub width: u32,
    pub height: u32,
}

/// The smallest of three values.
pub open spec fn min3(a: int, b: int, c: int) -> int {
    if a <= b && a <= c {
        a
    } else if b <= c {
        b
    } else {
        c
    }
}

/// How far a detected face square of side `fw` is grown: bounded by the face
/// itself and by the margins the image leaves around it.
pub open spec fn face_expansion(img_w: int, img_h: int, fw: int) -> int {
    min3(fw, img_w - fw, img_h - fw)
}

/// The side of the expanded face square.
pub open spec fn face_rect_side(img_w: int, img_h: int, fw: int) -> int {
    fw + face_expansion(img_w, img_h, fw)
}

/// A window position `want` clamped so a window of length `side` stays
/// inside `[0, limit]`; `want` below zero is represented by the flag
/// `underflow`.
pub open spec fn clamp_window(underflow: bool, want: int, side: int, limit: int) -> int {
    if underflow {
        0
    } else if want + side > limit {
        limit - side
    } else {
        want
    }
}

/// The index of the first widest rectangle of a non-empty list: a later
/// rectangle displaces the choice only when it is strictly wider.
pub open spec fn best_face_idx(faces: Seq<Rect>) -> int
    decreases faces.len(),
{
    if faces.len() <= 1 {
        0
    } else {
        let b = best_face_idx(faces.drop_last());
        if faces.last().width > faces[b].width {
            faces.len() - 1
        } else {
            b
        }
    }
}

/// Chooses the first widest rectangle: the index of the rectangle whose
/// width no other exceeds, earliest first.
pub fn select_face(faces: &Vec<Rect>) -> (r: Option<usize>)
    ensures
        r is Some <==> faces@.len() > 0,
        r matches Some(i) ==> {
            &&& i == best_face_idx(faces@)
            &&& 0 <= i < faces@.len()
            &&& forall|j: int| 0 <= j < faces@.len() ==> faces@[j].width <= faces@[i as int].width
            &&& forall|j: int| 0 <= j < i ==> faces@[j].width < faces@[i as int].width
        },
{
    if faces.len() == 0 {
        return None;
    }
    let mut best: usize = 0;
    let mut k: usize = 1;
    while k < faces.len()
        invariant
            0 <= best < k <= faces@.len(),
            best == best_face_idx(faces@.take(k as int)),
            forall|j: int| 0 <= j < k ==> faces@[j].width <= faces@[best as int].width,
            forall|j: int| 0 <= j < best ==> faces@[j].width < faces@[best as int].width,
        decreases faces@.len() - k,
    {
        proof {
            assert(faces@.take(k + 1).drop_last() == faces@.take(k as int));
            assert(faces@.take(k + 1).last() == faces@[k as int]);
        }
        if faces[k].width > faces[best].width {
            best = k;
        }
        k += 1;
    }
    proof {
        assert(faces@.take(faces@.len() as int) == faces@);
    }
    Some(best)
}

/// The expanded face square, in spec form: see `face_image_rect`.
pub open spec fn face_rect(img_w: int, img_h: int, face: Rect) -> Rect {
    let exp = face_expansion(img_w, img_h, face.width as int);
    let side = face.width + exp;
    let x = clamp_window(face.x < exp / 2, face.x - exp / 2, side, img_w);
    let lift = exp / 2 + face.width * 3 / 20;
    let y = clamp_window(face.y < lift, face.y - lift, side, img_h);
    Rect { x: x as u32, y: y as u32, width: side as u32, height: side as u32 }
}

/// Expands a detected face square into the square region to crop: the face
/// grown by `face_expansion` on each side together, centered on the face
/// horizontally and shifted upward by three twentieths of the face side to
/// include hair and forehead, then clamped (by shifting, never by
/// shrinking) so the window stays inside the image.
///
/// The result is always square and always lies fully inside the image.
pub fn face_image_rect(img_width: u32, img_height: u32, face: &Rect) -> (r: Rect)
    requires
        face.width == face.height,
        face.width <= img_width,
        face.height <= img_height,
    ensures
        r == face_rect(img_width as int, img_height as int, *face),
        r.width == r.height,
        r.width == face_rect_side(img_width as int, img_height as int, face.width as int),
        r.x + r.width <= img_width,
        r.y + r.height <= img_height,
        r.x == clamp_window(
            face.x < face_expansion(img_width as int, img_height as int, face.width as int) / 2,
            face.x - face_expansion(img_width as int, img_height as int, face.width as int) / 2,
            r.width as int,
            img_width as int,
        ),
        r.y == clamp_window(
            face.y < face_expansion(img_width as int, img_height as int, face.width as int) / 2
                + face.width * 3 / 20,
            face.y - (face_expansion(img_width as int, img_height as int, face.width as int) / 2
                + face.width * 3 / 20),
            r.height as int,
            img_height as int,
        ),
{
    let mut offset = face.width;
    if img_width - face.width < offset {
        offset = img_width - face.width;
    }
    if img_height - face.height < offset {
        offset = img_height - face.height;
    }
    let side = face.width + offset;
    let half = offset / 2;

    let x: u32 = if face.x < half {
        0
    } else {
        let want = face.x - half;
        if want > img_width - side {
            img_width - side
        } else {
            want
        }
    };

    let lift: u64 = (half as u64) + (face.width as u64) * 3 / 20;
    let y: u32 = if (face.y as u64) < lift {
        0
    } else {
        let want = (face.y as u64 - lift) as u32;
        if want > img_height - side {
            img_height - side
        } else {
            want
        }
    };

    Rect { x, y, width: side, height: side }
}

} // verus!
