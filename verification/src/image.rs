//! The finished picture: a grid of 8-bit pixels held as scanlines from the top
//! row down, and its assembly from the bands that the workers rendered.

use vstd::prelude::*;

verus! {

/// One pixel of the finished picture: three 8-bit channel levels.
#[derive(Clone, Copy, Debug, PartialEq, Eq, Structural)]
pub struct Pixel {
    pub r: u8,
    pub g: u8,
    pub b: u8,
}

impl Pixel {
    pub fn new(r: u8, g: u8, b: u8) -> (p: Pixel)
        ensures
            p == (Pixel { r, g, b }),
    {
        Pixel { r, g, b }
    }
}

/// The bands laid end to end from the last band down to the first.
pub open spec fn concat_descending(bands: Seq<Seq<Pixel>>) -> Seq<Pixel>
    decreases bands.len(),
{
    if bands.len() == 0 {
        Seq::empty()
    } else {
        concat_descending(bands.skip(1)) + bands[0]
    }
}

/// The pixel sequences that a vector of bands holds.
pub open spec fn band_views(bands: Seq<Vec<Pixel>>) -> Seq<Seq<Pixel>> {
    Seq::new(bands.len(), |z: int| bands[z]@)
}

/// A picture of `width()` by `height()` pixels. The view is the pixel
/// sequence in file order: scanlines from the top row down, each from left to
/// right.
#[derive(Clone, Debug)]
pub struct Image {
    pixels: Vec<Pixel>,
    image_height: usize,
    image_width: usize,
}

impl View for Image {
    type V = Seq<Pixel>;

    closed spec fn view(&self) -> Seq<Pixel> {
        self.pixels@
    }
}

impl Image {
    pub closed spec fn width(&self) -> nat {
        self.image_width as nat
    }

    pub closed spec fn height(&self) -> nat {
        self.image_height as nat
    }

    /// The picture holds exactly one pixel for each place of the grid.
    pub open spec fn wf(&self) -> bool {
        self@.len() == self.height() * self.width()
    }

    /// Builds the picture from the bands that were rendered, taking them from
    /// the last band down to the first.
    pub fn assemble(image_width: usize, image_height: usize, bands: &Vec<Vec<Pixel>>) -> (image:
        Image)
        ensures
            image.width() == image_width,
            image.height() == image_height,
            image@ == concat_descending(band_views(bands@)),
    {
        let mut pixels: Vec<Pixel> = Vec::new();
        let mut z: usize = bands.len();
        let ghost views = band_views(bands@);
        assert(views.skip(z as int) =~= Seq::<Seq<Pixel>>::empty());
        while z > 0
            invariant
                z <= bands.len(),
                views == band_views(bands@),
                pixels@ == concat_descending(views.skip(z as int)),
            decreases z,
        {
            z = z - 1;
            let band = &bands[z];
            let ghost before = pixels@;
            let mut k: usize = 0;
            while k < band.len()
                invariant
                    k <= band.len(),
                    pixels@ == before + band@.take(k as int),
                decreases band.len() - k,
            {
                pixels.push(band[k]);
                k = k + 1;
                assert(band@.take(k as int) =~= band@.take(k - 1).push(band@[k - 1]));
            }
            proof {
                assert(band@.take(k as int) =~= band@);
                assert(views.skip(z as int).skip(1) =~= views.skip(z + 1));
                assert(views.skip(z as int)[0] == band@);
            }
        }
        assert(views.skip(0) =~= views);
        Image { pixels, image_height, image_width }
    }

    pub fn image_width(&self) -> (w: usize)
        ensures
            w == self.width(),
    {
        self.image_width
    }

    pub fn image_height(&self) -> (h: usize)
        ensures
            h == self.height(),
    {
        self.image_height
    }

    /// The pixels in file order.
    pub fn pixels(&self) -> (pixels: &Vec<Pixel>)
        ensures
            pixels@ == self@,
    {
        &self.pixels
    }
}

} // verus!
