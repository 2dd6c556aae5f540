//! The remapping filter: every pixel is replaced by a combination of the
//! average of its column and the average of its row.
use crate::kayconfig::KayConfig;
use crate::pixel::{pixel_average, spec_pixel_average, Rgb};
use vstd::prelude::*;

verus! {

/// An image held in memory, row after row.
#[derive(Debug)]
pub struct Raster {
    pub width: u32,
    pub height: u32,
    pub pixels: Vec<Rgb>,
}

impl Raster {
    /// There is one pixel for each place of the image.
    pub open spec fn wf(self) -> bool {
        self.pixels@.len() == self.width * self.height
    }

    /// The pixel in column `x` of row `y`.
    pub open spec fn at(self, x: int, y: int) -> Rgb {
        self.pixels@[y * self.width + x]
    }

    /// Column `x`, top to bottom.
    pub open spec fn spec_column(self, x: int) -> Seq<Rgb> {
        Seq::new(self.height as nat, |y: int| self.at(x, y))
    }

    /// Row `y`, left to right.
    pub open spec fn spec_row(self, y: int) -> Seq<Rgb> {
        Seq::new(self.width as nat, |x: int| self.at(x, y))
    }

    /// An image of the given pixels, if there is one pixel for each place.
    pub fn new(width: u32, height: u32, pixels: Vec<Rgb>) -> (r: Option<Raster>)
        ensures
            r is Some <==> pixels@.len() == width * height,
            r is Some ==> r->0.wf() && r->0.width == width && r->0.height == height && r->0.pixels
                == pixels,
    {
        assert(width * height <= u64::MAX) by (nonlinear_arith)
            requires
                0 <= width <= u32::MAX,
                0 <= height <= u32::MAX,
        ;
        let places: u64 = (width as u64) * (height as u64);
        if pixels.len() as u64 == places {
            Some(Raster { width, height, pixels })
        } else {
            None
        }
    }

    pub fn get_pixel(&self, x: u32, y: u32) -> (p: Rgb)
        requires
            self.wf(),
            x < self.width,
            y < self.height,
        ensures
            p == self.at(x as int, y as int),
    {
        let n: usize = self.pixels.len();
        proof {
            lemma_place_in_bounds(x as int, y as int, self.width as int, self.height as int);
        }
        self.pixels[(y as usize) * (self.width as usize) + (x as usize)]
    }

    pub fn column(&self, x: u32) -> (col: Vec<Rgb>)
        requires
            self.wf(),
            x < self.width,
        ensures
            col@ == self.spec_column(x as int),
    {
        let mut col: Vec<Rgb> = Vec::new();
        let mut y: u32 = 0;
        while y < self.height
            invariant
                self.wf(),
                x < self.width,
                y <= self.height,
                col@ == self.spec_column(x as int).take(y as int),
            decreases self.height - y,
        {
            col.push(self.get_pixel(x, y));
            y += 1;
            assert(col@ =~= self.spec_column(x as int).take(y as int));
        }
        assert(self.spec_column(x as int).take(self.height as int) =~= self.spec_column(x as int));
        col
    }

    pub fn row(&self, y: u32) -> (row: Vec<Rgb>)
        requires
            self.wf(),
            y < self.height,
        ensures
            row@ == self.spec_row(y as int),
    {
        let mut row: Vec<Rgb> = Vec::new();
        let mut x: u32 = 0;
        while x < self.width
            invariant
                self.wf(),
                y < self.height,
                x <= self.width,
                row@ == self.spec_row(y as int).take(x as int),
            decreases self.width - x,
        {
            row.push(self.get_pixel(x, y));
            x += 1;
            assert(row@ =~= self.spec_row(y as int).take(x as int));
        }
        assert(self.spec_row(y as int).take(self.width as int) =~= self.spec_row(y as int));
        row
    }
}

/// A place inside an image has its index inside the image's pixels.
pub proof fn lemma_place_in_bounds(x: int, y: int, width: int, height: int)
    requires
        0 <= x < width,
        0 <= y < height,
    ensures
        0 <= y * width + x < width * height,
        0 <= y * width <= width * height,
{
    assert(y * width + x < width * height && 0 <= y * width) by (nonlinear_arith)
        requires
            0 <= x < width,
            0 <= y < height,
    ;
}

/// The average pixel of every column and of every row of an image.
#[derive(Debug)]
pub struct ImageScans {
    pub x: Vec<Rgb>,
    pub y: Vec<Rgb>,
}

impl ImageScans {
    /// These are the averages of `img`.
    pub open spec fn scans_of(self, img: Raster) -> bool {
        &&& self.x@.len() == img.width
        &&& self.y@.len() == img.height
        &&& forall|x: int|
            0 <= x < img.width ==> (#[trigger] self.x@[x]) == spec_pixel_average(img.spec_column(x))
        &&& forall|y: int|
            0 <= y < img.height ==> (#[trigger] self.y@[y]) == spec_pixel_average(img.spec_row(y))
    }

    /// The configuration can be applied at every place: no average that it
    /// takes of a column's and a row's channel passes a byte.
    pub open spec fn fits(self, config: KayConfig) -> bool {
        forall|x: int, y: int|
            0 <= x < self.x@.len() && 0 <= y < self.y@.len() ==> config.fits_pixel(
                #[trigger] self.x@[x],
                #[trigger] self.y@[y],
            )
    }

    /// Averages every column and every row. An image with columns but no
    /// rows, or with rows but no columns, has nothing to average.
    pub fn new(img: &Raster) -> (scans: Self)
        requires
            img.wf(),
            img.width == 0 <==> img.height == 0,
        ensures
            scans.scans_of(*img),
    {
        let mut xs: Vec<Rgb> = Vec::new();
        let mut x: u32 = 0;
        while x < img.width
            invariant
                img.wf(),
                img.width == 0 <==> img.height == 0,
                x <= img.width,
                xs@.len() == x,
                forall|k: int|
                    0 <= k < x ==> (#[trigger] xs@[k]) == spec_pixel_average(img.spec_column(k)),
            decreases img.width - x,
        {
            let col = img.column(x);
            xs.push(pixel_average(col.as_slice()));
            x += 1;
        }
        let mut ys: Vec<Rgb> = Vec::new();
        let mut y: u32 = 0;
        while y < img.height
            invariant
                img.wf(),
                img.width == 0 <==> img.height == 0,
                y <= img.height,
                ys@.len() == y,
                forall|k: int|
                    0 <= k < y ==> (#[trigger] ys@[k]) == spec_pixel_average(img.spec_row(k)),
            decreases img.height - y,
        {
            let row = img.row(y);
            ys.push(pixel_average(row.as_slice()));
            y += 1;
        }
        ImageScans { x: xs, y: ys }
    }

    /// Whether `config` can be applied at every place.
    pub fn fits_config(&self, config: &KayConfig) -> (ok: bool)
        ensures
            ok == self.fits(*config),
    {
        let mut x: usize = 0;
        while x < self.x.len()
            invariant
                x <= self.x@.len(),
                forall|i: int, j: int|
                    0 <= i < x && 0 <= j < self.y@.len() ==> config.fits_pixel(
                        #[trigger] self.x@[i],
                        #[trigger] self.y@[j],
                    ),
            decreases self.x@.len() - x,
        {
            let mut y: usize = 0;
            while y < self.y.len()
                invariant
                    x < self.x@.len(),
                    y <= self.y@.len(),
                    forall|i: int, j: int|
                        0 <= i < x && 0 <= j < self.y@.len() ==> config.fits_pixel(
                            #[trigger] self.x@[i],
                            #[trigger] self.y@[j],
                        ),
                    forall|j: int|
                        0 <= j < y ==> config.fits_pixel(self.x@[x as int], #[trigger] self.y@[j]),
                decreases self.y@.len() - y,
            {
                if !config.can_remap_pixel(self.x[x], self.y[y]) {
                    return false;
                }
                y += 1;
            }
            x += 1;
        }
        true
    }
}

impl KayConfig {
    /// The three channel calculations can be carried out on these two
    /// pixels.
    pub open spec fn fits_pixel(self, cx: Rgb, cy: Rgb) -> bool {
        &&& self.calc_r.fits(cx.r as int, cy.r as int)
        &&& self.calc_g.fits(cx.g as int, cy.g as int)
        &&& self.calc_b.fits(cx.b as int, cy.b as int)
    }

    /// The pixel that stands where a column of average `cx` meets a row of
    /// average `cy`.
    pub open spec fn spec_remap_pixel(self, cx: Rgb, cy: Rgb) -> Rgb {
        Rgb {
            r: self.calc_r.spec_calc(cx.r as int, cy.r as int) as u8,
            g: self.calc_g.spec_calc(cx.g as int, cy.g as int) as u8,
            b: self.calc_b.spec_calc(cx.b as int, cy.b as int) as u8,
        }
    }

    pub fn can_remap_pixel(&self, cx: Rgb, cy: Rgb) -> (ok: bool)
        ensures
            ok == self.fits_pixel(cx, cy),
    {
        self.calc_r.can_calc(cx.r, cy.r) && self.calc_g.can_calc(cx.g, cy.g)
            && self.calc_b.can_calc(cx.b, cy.b)
    }

    pub fn remap_pixel(&self, cx: Rgb, cy: Rgb) -> (p: Rgb)
        requires
            self.fits_pixel(cx, cy),
        ensures
            p == self.spec_remap_pixel(cx, cy),
    {
        Rgb {
            r: self.calc_r.calc(cx.r, cy.r),
            g: self.calc_g.calc(cx.g, cy.g),
            b: self.calc_b.calc(cx.b, cy.b),
        }
    }

    /// Replaces every pixel of `img` by the combination of its column's and
    /// its row's scan.
    pub fn remap(&self, img: &mut Raster, scans: &ImageScans)
        requires
            old(img).wf(),
            scans.x@.len() == old(img).width,
            scans.y@.len() == old(img).height,
            scans.fits(*self),
        ensures
            final(img).width == old(img).width,
            final(img).height == old(img).height,
            final(img).wf(),
            forall|x: int, y: int|
                0 <= x < old(img).width && 0 <= y < old(img).height ==> #[trigger] final(img).at(x, y)
                    == self.spec_remap_pixel(scans.x@[x], scans.y@[y]),
    {
        let width: u32 = img.width;
        let height: u32 = img.height;
        let mut y: u32 = 0;
        while y < height
            invariant
                img.width == width,
                img.height == height,
                img.wf(),
                y <= height,
                scans.x@.len() == width,
                scans.y@.len() == height,
                scans.fits(*self),
                forall|i: int, j: int|
                    0 <= i < width && 0 <= j < y ==> #[trigger] img.at(i, j) == self.spec_remap_pixel(
                        scans.x@[i],
                        scans.y@[j],
                    ),
            decreases height - y,
        {
            let mut x: u32 = 0;
            while x < width
                invariant
                    img.width == width,
                    img.height == height,
                    img.wf(),
                    y < height,
                    x <= width,
                    scans.x@.len() == width,
                    scans.y@.len() == height,
                    scans.fits(*self),
                    forall|i: int, j: int|
                        0 <= i < width && 0 <= j < y ==> #[trigger] img.at(i, j)
                            == self.spec_remap_pixel(scans.x@[i], scans.y@[j]),
                    forall|i: int|
                        0 <= i < x ==> #[trigger] img.at(i, y as int) == self.spec_remap_pixel(
                            scans.x@[i],
                            scans.y@[y as int],
                        ),
                decreases width - x,
            {
                let n: usize = img.pixels.len();
                proof {
                    lemma_place_in_bounds(x as int, y as int, width as int, height as int);
                }
                let ghost before = *img;
                let p = self.remap_pixel(scans.x[x as usize], scans.y[y as usize]);
                let place: usize = (y as usize) * (width as usize) + (x as usize);
                img.pixels.set(place, p);
                proof {
                    assert forall|i: int, j: int| 0 <= i < width && 0 <= j < y implies #[trigger] img.at(
                        i,
                        j,
                    ) == self.spec_remap_pixel(scans.x@[i], scans.y@[j]) by {
                        lemma_places_differ(i, j, x as int, y as int, width as int);
                        lemma_place_in_bounds(i, j, width as int, height as int);
                        assert(before.at(i, j) == img.at(i, j));
                    }
                    assert forall|i: int| 0 <= i < x + 1 implies #[trigger] img.at(i, y as int)
                        == self.spec_remap_pixel(scans.x@[i], scans.y@[y as int]) by {
                        if i < x {
                            lemma_places_differ(i, y as int, x as int, y as int, width as int);
                            lemma_place_in_bounds(i, y as int, width as int, height as int);
                            assert(before.at(i, y as int) == img.at(i, y as int));
                        }
                    }
                }
                x += 1;
            }
            y += 1;
        }
    }
}

/// Two places of an image that differ have different indices.
pub proof fn lemma_places_differ(x1: int, y1: int, x2: int, y2: int, width: int)
    requires
        0 <= x1 < width,
        0 <= x2 < width,
        0 <= y1,
        0 <= y2,
        x1 != x2 || y1 != y2,
    ensures
        y1 * width + x1 != y2 * width + x2,
{
    if y1 < y2 {
        assert(y1 * width + x1 < y2 * width + x2) by (nonlinear_arith)
            requires
                0 <= x1 < width,
                0 <= x2,
                0 <= y1 < y2,
        ;
    } else if y2 < y1 {
        assert(y2 * width + x2 < y1 * width + x1) by (nonlinear_arith)
            requires
                0 <= x2 < width,
                0 <= x1,
                0 <= y2 < y1,
        ;
    }
}

} // verus!
