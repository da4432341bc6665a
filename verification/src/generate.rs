//! Mosaic generation: the target is padded to whole cells, a tile is chosen for every
//! cell, the chosen tiles are painted, and the canvas is cut back to the size of the
//! target and handed out as a PNG data URI.

use crate::base64::{data_uri, png_data_uri};
use crate::compose::{all_loaded, chosen_pictures, compose, mosaic_canvas};
use crate::errors::AppError;
use crate::grid::{grid_over, lemma_padded_len, padded_dimension, padded_len, Grid};
use crate::imaging::{png_encodable, png_file, stretchable};
use crate::library::{LibraryView, TileLibrary};
use crate::mosaic::{
    cell_colors, is_selection, lemma_selection_unique, sample_cells, select_tiles,
};
use crate::raster::{window, Raster, RasterView};
use crate::tile::{views_of, Tile};
use vstd::prelude::*;
use vstd::string::StringExecFns;

verus! {

/// Settings of one generation run.
#[derive(Clone, Copy, Debug, PartialEq, Eq, Structural)]
pub struct MosaicConfig {
    /// What each earlier use of a tile costs it, as a fixed-point factor; zero lets
    /// tiles repeat freely.
    pub penalty_factor: u32,
}

/// What a target is.
pub struct TargetView {
    pub image: RasterView,
    pub width: nat,
    pub height: nat,
    pub grid: Grid,
}

impl TargetView {
    /// The picture covers the grid exactly, and the grid covers the size before padding
    /// with less than one cell to spare in either direction.
    pub open spec fn wf(self) -> bool {
        &&& self.grid.wf()
        &&& self.image.wf()
        &&& self.image.width == self.grid.width()
        &&& self.image.height == self.grid.height()
        &&& 0 < self.width
        &&& 0 < self.height
        &&& self.grid.width() == padded_len(self.width, self.grid.tile_size as nat)
        &&& self.grid.height() == padded_len(self.height, self.grid.tile_size as nat)
    }
}

/// Whether both sides of `picture` are whole multiples of `tile_size`.
pub open spec fn aligned(picture: RasterView, tile_size: nat) -> bool {
    picture.width % tile_size == 0 && picture.height % tile_size == 0
}

/// Whether `picture` can be made ready for cells of side `tile_size`: neither the
/// tile size nor a side of the picture is zero, the padded sides fit in 32 bits, and
/// the picture needs no padding or can be stretched to the padded sides.
pub open spec fn paddable(picture: RasterView, tile_size: nat) -> bool {
    let pw = padded_len(picture.width, tile_size);
    let ph = padded_len(picture.height, tile_size);
    &&& tile_size > 0
    &&& picture.width > 0
    &&& picture.height > 0
    &&& pw <= u32::MAX
    &&& ph <= u32::MAX
    &&& (pw == picture.width && ph == picture.height) || stretchable(
        picture.width,
        picture.height,
        pw,
        ph,
    )
}

/// The target that a picture is whose sides are whole multiples of `tile_size`: the
/// picture itself under the grid of its cells.
pub open spec fn as_target(picture: RasterView, tile_size: nat) -> TargetView {
    TargetView {
        image: picture,
        width: picture.width,
        height: picture.height,
        grid: grid_over(picture.width, picture.height, tile_size),
    }
}

/// A target picture made ready for tiling: padded to whole cells, with the size it
/// had before kept for the final cut.
pub struct Target {
    image: Raster,
    width: u32,
    height: u32,
    grid: Grid,
}

impl View for Target {
    type V = TargetView;

    closed spec fn view(&self) -> TargetView {
        TargetView {
            image: self.image@,
            width: self.width as nat,
            height: self.height as nat,
            grid: self.grid,
        }
    }
}

impl Target {
    #[verifier::type_invariant]
    spec fn inv(self) -> bool {
        self@.wf()
    }

    /// Makes a decoded picture ready for cells of side `tile_size`. A picture whose
    /// sides are whole multiples of `tile_size` is taken as it is, pixel for pixel;
    /// any other is stretched to the next multiples. Fails with an image error exactly
    /// where the picture is not `paddable`.
    pub fn pad(decoded: Raster, tile_size: u32) -> (res: Result<Target, AppError>)
        ensures
            res is Ok <==> paddable(decoded@, tile_size as nat),
            res matches Ok(target) ==> {
                &&& target@.wf()
                &&& target@.width == decoded@.width
                &&& target@.height == decoded@.height
                &&& target@.grid == grid_over(
                    padded_len(decoded@.width, tile_size as nat),
                    padded_len(decoded@.height, tile_size as nat),
                    tile_size as nat,
                )
                &&& (aligned(decoded@, tile_size as nat) ==> target@ == as_target(
                    decoded@,
                    tile_size as nat,
                ))
            },
            res matches Err(error) ==> error is Image,
    {
        let width = decoded.width();
        let height = decoded.height();
        if tile_size == 0 || width == 0 || height == 0 {
            return Err(AppError::Image(String::from_str("empty picture or zero tile size")));
        }
        proof {
            lemma_padded_len(width as nat, tile_size as nat);
            lemma_padded_len(height as nat, tile_size as nat);
            crate::grid::lemma_aligned_needs_no_padding(width as nat, tile_size as nat);
            crate::grid::lemma_aligned_needs_no_padding(height as nat, tile_size as nat);
        }
        let padded_width = match padded_dimension(width, tile_size) {
            Some(padded) => padded,
            None => {
                return Err(AppError::Image(String::from_str("the picture is too wide")));
            },
        };
        let padded_height = match padded_dimension(height, tile_size) {
            Some(padded) => padded,
            None => {
                return Err(AppError::Image(String::from_str("the picture is too high")));
            },
        };
        let image = if padded_width == width && padded_height == height {
            decoded
        } else {
            match decoded.resize_exact(padded_width, padded_height) {
                Ok(stretched) => stretched,
                Err(error) => {
                    return Err(error);
                },
            }
        };
        match Grid::covering(padded_width, padded_height, tile_size) {
            Some(grid) => Ok(Target { image, width, height, grid }),
            None => Err(AppError::Image(String::from_str("empty picture or zero tile size"))),
        }
    }

    /// The padded picture.
    pub fn image(&self) -> (image: &Raster)
        ensures
            image@ == self@.image,
            self@.wf(),
    {
        proof {
            use_type_invariant(self);
        }
        &self.image
    }

    /// The grid of cells over the padded picture.
    pub fn grid(&self) -> (grid: Grid)
        ensures
            grid == self@.grid,
            self@.wf(),
    {
        proof {
            use_type_invariant(self);
        }
        self.grid
    }

    /// Width of the picture before padding.
    pub fn width(&self) -> (width: u32)
        ensures
            width == self@.width,
            self@.wf(),
    {
        proof {
            use_type_invariant(self);
        }
        self.width
    }

    /// Height of the picture before padding.
    pub fn height(&self) -> (height: u32)
        ensures
            height == self@.height,
            self@.wf(),
    {
        proof {
            use_type_invariant(self);
        }
        self.height
    }
}

/// The mosaic of `pictures` over `grid`, cut to `width` by `height`.
pub open spec fn mosaic_picture(pictures: Seq<RasterView>, grid: Grid, width: nat, height: nat) -> RasterView {
    window(mosaic_canvas(pictures, grid), 0, 0, width, height)
}

/// The data URI of the mosaic of `pictures` over `grid`, cut to `width` by `height`.
pub open spec fn mosaic_uri(pictures: Seq<RasterView>, grid: Grid, width: nat, height: nat) -> Seq<
    char,
> {
    png_data_uri(png_file(mosaic_picture(pictures, grid, width, height)))
}

/// Whether `choices` can be painted for `target`: the target was padded for the tile
/// size of the library, there is one choice for each cell, every chosen tile exists
/// and has its picture loaded, and the canvas takes no more than half of the address
/// space.
pub open spec fn paintable(library: LibraryView, target: TargetView, choices: Seq<usize>) -> bool {
    &&& target.grid.tile_size == library.tile_size
    &&& choices.len() == target.grid.cell_count()
    &&& all_loaded(library.tiles, choices)
    &&& 8 * target.grid.width() * target.grid.height() <= usize::MAX
}

/// Whether `choices` can be painted for `target` and the encoder accepts the picture
/// that comes of it.
pub open spec fn renders(library: LibraryView, target: TargetView, choices: Seq<usize>) -> bool {
    &&& paintable(library, target, choices)
    &&& png_encodable(
        mosaic_picture(
            chosen_pictures(library.tiles, choices),
            target.grid,
            target.width,
            target.height,
        ),
    )
}

/// Whether `choices` is the selection that `library` makes for `target`, and it can
/// be rendered.
pub open spec fn makes(
    library: LibraryView,
    target: TargetView,
    config: MosaicConfig,
    choices: Seq<usize>,
) -> bool {
    &&& is_selection(
        library.points,
        config.penalty_factor as nat,
        cell_colors(target.image, library.mask, target.grid),
        choices,
    )
    &&& renders(library, target, choices)
}

/// Whether `res` is what `library` makes of the picture `decoded`. A picture that is
/// not `paddable` gives an error. A picture whose sides are whole multiples of the
/// tile size gives a mosaic exactly where its selection can be rendered. Every
/// mosaic is as `is_mosaic_of` says, and every error is an image error.
pub open spec fn is_mosaic_result(
    library: LibraryView,
    decoded: RasterView,
    config: MosaicConfig,
    res: Result<String, AppError>,
) -> bool {
    &&& res matches Err(error) ==> error is Image
    &&& !paddable(decoded, library.tile_size) ==> res is Err
    &&& res matches Ok(uri) ==> exists|padded: TargetView, choices: Seq<usize>|
        is_mosaic_of(library, decoded, config, padded, choices, uri@)
    &&& aligned(decoded, library.tile_size) ==> (res is Ok <==> paddable(
        decoded,
        library.tile_size,
    ) && exists|choices: Seq<usize>|
        makes(library, as_target(decoded, library.tile_size), config, choices))
}

/// Whether `res` is what `library` makes of the outcome of decoding a target: an
/// error where decoding gave no picture, else what it makes of the picture.
pub open spec fn is_generated(
    library: LibraryView,
    decoded: Option<RasterView>,
    config: MosaicConfig,
    res: Result<String, AppError>,
) -> bool {
    match decoded {
        Some(picture) => picture.wf() && is_mosaic_result(library, picture, config, res),
        None => res is Err,
    }
}

/// Whether `uri` is the mosaic that `library` makes of the picture `decoded`: `padded`
/// is the picture made ready for the cells, unchanged where its sides are whole
/// multiples of the tile size; `choices` holds the tile chosen for each cell; and
/// `uri` shows the pictures of the chosen tiles, cut to the size of `decoded`.
pub open spec fn is_mosaic_of(
    library: LibraryView,
    decoded: RasterView,
    config: MosaicConfig,
    padded: TargetView,
    choices: Seq<usize>,
    uri: Seq<char>,
) -> bool {
    &&& padded.wf()
    &&& padded.grid.tile_size == library.tile_size
    &&& padded.width == decoded.width
    &&& padded.height == decoded.height
    &&& (decoded.width % library.tile_size == 0 && decoded.height % library.tile_size == 0
        ==> padded.image == decoded)
    &&& is_selection(
        library.points,
        config.penalty_factor as nat,
        cell_colors(padded.image, library.mask, padded.grid),
        choices,
    )
    &&& renders(library, padded, choices)
    &&& uri == mosaic_uri(
        chosen_pictures(library.tiles, choices),
        padded.grid,
        padded.width,
        padded.height,
    )
}

/// The result of a run, given what the PNG encoder made of the finished picture:
/// the data URI of the file, or the encoder's error.
pub fn finish(encoded: Result<Vec<u8>, AppError>) -> (res: Result<String, AppError>)
    ensures
        encoded matches Ok(png) ==> (res matches Ok(uri) && uri@ == png_data_uri(png@)),
        encoded matches Err(error) ==> res == Err::<String, AppError>(error),
{
    match encoded {
        Ok(png) => Ok(data_uri(&png)),
        Err(error) => Err(error),
    }
}

/// Whether every chosen tile exists and has its picture loaded.
pub fn check_loaded(tiles: &Vec<Tile>, choices: &Vec<usize>) -> (ok: bool)
    ensures
        ok == all_loaded(views_of(tiles@), choices@),
{
    let mut cell: usize = 0;
    while cell < choices.len()
        invariant
            cell <= choices@.len(),
            forall|done: int|
                0 <= done < cell ==> #[trigger] choices@[done] < tiles@.len() && views_of(
                    tiles@,
                )[choices@[done] as int].image is Some,
        decreases choices@.len() - cell,
    {
        let chosen = choices[cell];
        if chosen >= tiles.len() {
            return false;
        }
        if !tiles[chosen].is_loaded() {
            return false;
        }
        cell += 1;
    }
    true
}

impl TileLibrary {
    /// Chooses a tile for every cell of the target, row after row: the colour of the
    /// cell is its weighted average under the mask of the library, and each choice
    /// counts against the tile in the choices that follow. Fails with a configuration
    /// error exactly where the target was padded for another tile size.
    pub fn plan(&self, target: &Target, config: &MosaicConfig) -> (res: Result<Vec<usize>, AppError>)
        requires
            self@.wf(),
        ensures
            res is Ok <==> target@.grid.tile_size == self@.tile_size,
            res matches Ok(choices) ==> choices@.len() == target@.grid.cell_count()
                && is_selection(
                self@.points,
                config.penalty_factor as nat,
                cell_colors(target@.image, self@.mask, target@.grid),
                choices@,
            ),
            res matches Err(error) ==> error is Config,
    {
        if target.grid().tile_size != self.tile_size() {
            return Err(
                AppError::Config(String::from_str("the target was padded for another tile size")),
            );
        }
        let colors = sample_cells(target.image(), self.mask(), target.grid());
        Ok(select_tiles(self.index(), &colors, config.penalty_factor))
    }

    /// Paints the picture of the tile chosen for each cell and cuts the canvas to the
    /// size of the target. Fails with an image error exactly where the choices cannot
    /// be painted: see `paintable`.
    pub fn paint(&self, target: &Target, choices: &Vec<usize>) -> (res: Result<Raster, AppError>)
        requires
            self@.wf(),
        ensures
            res is Ok <==> paintable(self@, target@, choices@),
            res matches Ok(picture) ==> picture@.wf() && picture@ == mosaic_picture(
                chosen_pictures(self@.tiles, choices@),
                target@.grid,
                target@.width,
                target@.height,
            ),
            res matches Err(error) ==> error is Image,
    {
        let tiles = self.tiles();
        let grid = target.grid();
        if grid.tile_size != self.tile_size() {
            return Err(
                AppError::Image(String::from_str("the target was padded for another tile size")),
            );
        }
        assert(grid.columns * grid.rows <= 0xFFFF_FFFF * 0xFFFF_FFFF) by (nonlinear_arith)
            requires
                grid.columns <= 0xFFFF_FFFF,
                grid.rows <= 0xFFFF_FFFF,
        ;
        if choices.len() as u128 != grid.columns as u128 * grid.rows as u128 {
            return Err(AppError::Image(String::from_str("the choices do not cover the target")));
        }
        if !check_loaded(tiles, choices) {
            return Err(AppError::Image(String::from_str("a chosen tile has no picture loaded")));
        }
        proof {
            assert forall|t: int| 0 <= t < tiles@.len() implies (#[trigger] tiles@[t])@.tile_size
                == grid.tile_size by {
                assert(self@.tiles[t] == tiles@[t]@);
            }
            lemma_padded_len(target@.width, grid.tile_size as nat);
            lemma_padded_len(target@.height, grid.tile_size as nat);
        }
        let canvas = match compose(tiles, choices, grid) {
            Ok(canvas) => canvas,
            Err(error) => {
                return Err(error);
            },
        };
        match canvas.region(0, 0, target.width(), target.height()) {
            Some(cut) => Ok(cut),
            None => Err(AppError::Image(String::from_str("the mosaic is too small"))),
        }
    }

    /// Paints the chosen tiles, cuts the canvas to the size of the target and encodes
    /// it. Fails with an image error exactly where the choices cannot be painted or
    /// the encoder refuses the picture.
    pub fn render(&self, target: &Target, choices: &Vec<usize>) -> (res: Result<String, AppError>)
        requires
            self@.wf(),
        ensures
            res is Ok <==> renders(self@, target@, choices@),
            res matches Ok(uri) ==> uri@ == mosaic_uri(
                chosen_pictures(self@.tiles, choices@),
                target@.grid,
                target@.width,
                target@.height,
            ),
            res matches Err(error) ==> error is Image,
    {
        match self.paint(target, choices) {
            Ok(picture) => finish(picture.encode_png()),
            Err(error) => Err(error),
        }
    }

    /// The tiles that were chosen and have no picture loaded yet, each once, in
    /// ascending order: the pictures to load before `render`.
    pub fn missing_images(&self, choices: &Vec<usize>) -> (missing: Vec<usize>)
        ensures
            forall|a: int, b: int|
                0 <= a < b < missing@.len() ==> #[trigger] missing@[a] < #[trigger] missing@[b],
            forall|t: usize|
                #[trigger] missing@.contains(t) <==> t < self@.tiles.len() && choices@.contains(t)
                    && self@.tiles[t as int].image is None,
    {
        let tiles = self.tiles();
        let n = tiles.len();
        let mut wanted: Vec<bool> = vec![false; n];
        let mut cell: usize = 0;
        while cell < choices.len()
            invariant
                cell <= choices@.len(),
                wanted@.len() == n,
                forall|t: int|
                    0 <= t < n ==> (#[trigger] wanted@[t] <==> choices@.take(cell as int).contains(
                        t as usize,
                    )),
            decreases choices@.len() - cell,
        {
            let chosen = choices[cell];
            let ghost before = wanted@;
            if chosen < n {
                wanted.set(chosen, true);
            }
            proof {
                let upto = choices@.take(cell as int);
                let next = choices@.take(cell + 1);
                assert forall|t: int| 0 <= t < n implies (#[trigger] wanted@[t] <==> next.contains(
                    t as usize,
                )) by {
                    if next.contains(t as usize) {
                        let at = choose|at: int| 0 <= at < next.len() && next[at] == t as usize;
                        if at < cell {
                            assert(upto[at] == t as usize);
                        }
                    }
                    if before[t] {
                        let at = choose|at: int| 0 <= at < upto.len() && upto[at] == t as usize;
                        assert(next[at] == t as usize);
                    }
                    if t == chosen {
                        assert(next[cell as int] == t as usize);
                    }
                }
            }
            cell += 1;
        }
        assert(choices@.take(cell as int) =~= choices@);
        let mut missing: Vec<usize> = Vec::new();
        let mut t: usize = 0;
        while t < n
            invariant
                t <= n,
                n == tiles@.len(),
                wanted@.len() == n,
                views_of(tiles@) == self@.tiles,
                forall|k: int| 0 <= k < n ==> (#[trigger] wanted@[k] <==> choices@.contains(k as usize)),
                forall|a: int| 0 <= a < missing@.len() ==> #[trigger] missing@[a] < t,
                forall|a: int, b: int|
                    0 <= a < b < missing@.len() ==> #[trigger] missing@[a] < #[trigger] missing@[b],
                forall|k: usize|
                    #[trigger] missing@.contains(k) <==> k < t && choices@.contains(k)
                        && self@.tiles[k as int].image is None,
            decreases n - t,
        {
            let ghost before = missing@;
            let take = wanted[t] && !tiles[t].is_loaded();
            if take {
                missing.push(t);
            }
            proof {
                assert forall|k: usize| #[trigger] missing@.contains(k) <==> k < t + 1
                    && choices@.contains(k) && self@.tiles[k as int].image is None by {
                    if missing@.contains(k) {
                        let at = choose|at: int| 0 <= at < missing@.len() && missing@[at] == k;
                        if at < before.len() {
                            assert(before[at] == k);
                        }
                    }
                    if before.contains(k) {
                        let at = choose|at: int| 0 <= at < before.len() && before[at] == k;
                        assert(missing@[at] == k);
                    }
                    if take && k == t {
                        assert(missing@[before.len() as int] == k);
                    }
                }
            }
            t += 1;
        }
        missing
    }

    /// Makes the mosaic of a decoded target picture: pads it, chooses the tiles,
    /// paints them and hands out the PNG data URI. The pictures of the tiles that get
    /// chosen must have been loaded. Fails with an image error where the picture
    /// cannot be padded or encoded, or a chosen tile has no picture loaded.
    pub fn mosaic_of(&self, decoded: Raster, config: &MosaicConfig) -> (res: Result<
        String,
        AppError,
    >)
        requires
            self@.wf(),
        ensures
            is_mosaic_result(self@, decoded@, *config, res),
    {
        let ghost picture = decoded@;
        let ghost side = self@.tile_size;
        let padded = match Target::pad(decoded, self.tile_size()) {
            Ok(padded) => padded,
            Err(error) => {
                return Err(error);
            },
        };
        let choices = match self.plan(&padded, config) {
            Ok(choices) => choices,
            Err(error) => {
                return Err(AppError::Image(error.into_detail()));
            },
        };
        let res = self.render(&padded, &choices);
        proof {
            if res is Ok {
                assert(is_mosaic_of(self@, picture, *config, padded@, choices@, res->Ok_0@));
            }
            if aligned(picture, side) {
                let target = as_target(picture, side);
                if res is Ok {
                    assert(makes(self@, target, *config, choices@));
                }
                if exists|other: Seq<usize>| makes(self@, target, *config, other) {
                    let other = choose|other: Seq<usize>| makes(self@, target, *config, other);
                    lemma_selection_unique(
                        self@.points,
                        config.penalty_factor as nat,
                        cell_colors(target.image, self@.mask, target.grid),
                        other,
                        choices@,
                    );
                }
            }
        }
        res
    }

    /// Makes the mosaic of what decoding the target gave: the mosaic of the picture,
    /// or the error with which decoding failed.
    pub fn mosaic_of_decoded(&self, decoded: Result<Raster, AppError>, config: &MosaicConfig) -> (res:
        Result<String, AppError>)
        requires
            self@.wf(),
        ensures
            decoded matches Err(error) ==> res == Err::<String, AppError>(error),
            decoded matches Ok(picture) ==> is_mosaic_result(self@, picture@, *config, res),
    {
        match decoded {
            Ok(picture) => self.mosaic_of(picture, config),
            Err(error) => Err(error),
        }
    }

    /// Makes the mosaic of the encoded target picture `target`: decodes it and makes
    /// the mosaic of what it shows. Fails with an image error where the target cannot
    /// be decoded, padded or encoded, or a chosen tile has no picture loaded. Which
    /// picture the bytes hold is for the decoder to say: the result is what
    /// `mosaic_of_decoded` gives for the decoder's outcome.
    pub fn generate_mosaic(&self, target: &Vec<u8>, config: &MosaicConfig) -> (res: Result<
        String,
        AppError,
    >)
        requires
            self@.wf(),
        ensures
            res matches Err(error) ==> error is Image,
            exists|decoded: Option<RasterView>| is_generated(self@, decoded, *config, res),
    {
        let decoded = Raster::decode(target);
        let ghost outcome: Option<RasterView> = if decoded is Ok {
            Some(decoded->Ok_0@)
        } else {
            None
        };
        let res = self.mosaic_of_decoded(decoded, config);
        proof {
            assert(is_generated(self@, outcome, *config, res));
        }
        res
    }
}

} // verus!
