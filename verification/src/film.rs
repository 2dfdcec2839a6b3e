//! The film: the buffer that the finished rows are gathered in.
use crate::raster::{
    blank, channels, dense, extent, fits, height_of, overlaid, overlay, pixel, raw_of, read, same,
    width_of, Raster,
};
use std::path::PathBuf;
use vstd::prelude::*;

verus! {

/// The path type of the standard library. It is handed on unread.
#[verifier::external_type_specification]
#[verifier::external_body]
pub struct ExPathBuf(PathBuf);

/// Why a row was not stored.
#[derive(Clone, Copy, Debug, PartialEq, Eq, Structural)]
pub enum FilmError {
    /// The row is wider than the film or reaches below its last row.
    OutOfBounds,
}

/// The picture being rendered, and how many samples each of its pixels takes.
pub struct Film {
    /// Where the picture is to be saved.
    pub filename: PathBuf,
    pub width: u32,
    pub height: u32,
    pub samples: u32,
    pub image: Raster,
}

impl Film {
    /// The picture has the film's extent, and its channels can be counted.
    pub open spec fn wf(&self) -> bool {
        fits(self.width, self.height) && extent(self.image) == (
            self.width as nat,
            self.height as nat,
        ) && dense(self.image)
    }

    /// A black film.
    pub fn new(width: u32, height: u32, samples: u32, filename: PathBuf) -> (film: Film)
        requires
            fits(width, height),
        ensures
            film.wf(),
            film.width == width,
            film.height == height,
            film.samples == samples,
            film.filename == filename,
            forall|i: int| 0 <= i < 3 * width * height ==> channels(film.image)[i] == 0,
    {
        Film { filename, width, height, samples, image: blank(width, height) }
    }

    /// Lays `line` over the film with its top-left corner at the start of row
    /// `y`. A line that does not fit there is refused and the film stays as it
    /// was.
    pub fn set_line(&mut self, line: &Raster, y: u32) -> (r: Result<(), FilmError>)
        requires
            old(self).wf(),
        ensures
            final(self).wf(),
            final(self).width == old(self).width,
            final(self).height == old(self).height,
            final(self).samples == old(self).samples,
            final(self).filename == old(self).filename,
            r is Ok <==> extent(*line).0 <= old(self).width && extent(*line).1 + y <= old(
                self,
            ).height,
            r is Ok ==> overlaid(old(self).image, *line, 0, y as int, final(self).image),
            r is Err ==> r == Err::<(), FilmError>(FilmError::OutOfBounds) && same(
                old(self).image,
                final(self).image,
            ),
    {
        let wide = width_of(line);
        let high = height_of(line);
        if wide > self.width || high > u32::MAX - y {
            return Err(FilmError::OutOfBounds);
        }
        match overlay(&mut self.image, line, 0, y) {
            Ok(()) => Ok(()),
            Err(_) => Err(FilmError::OutOfBounds),
        }
    }

    /// The channels of pixel `(x, y)`, or `None` outside the film.
    pub fn pixel(&self, x: u32, y: u32) -> (r: Option<[u8; 3]>)
        requires
            self.wf(),
        ensures
            r is Some <==> x < self.width && y < self.height,
            r is Some ==> r.unwrap()@ == pixel(self.image, x as int, y as int),
    {
        if x < width_of(&self.image) && y < height_of(&self.image) {
            Some(read(&self.image, x, y))
        } else {
            None
        }
    }

    /// The channel values of the picture, row after row, three for each pixel.
    pub fn to_vec(&self) -> (raw: Vec<u8>)
        ensures
            raw@ == channels(self.image),
    {
        raw_of(&self.image)
    }
}

} // verus!
