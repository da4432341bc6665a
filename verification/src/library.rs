//! The tile library: the tiles of one source directory with the search index over
//! their colours, kept for as long as its configuration stays the same.

use crate::color::Color;
use crate::errors::AppError;
use crate::index::ColorIndex;
use crate::mask::{MaskView, WeightingMask};
use crate::raster::{Raster, RasterView};
use crate::source::{
    lemma_tiles_come_from_files, load_library, pictures_of, tiles_from, tiles_of_prepared,
    well_prepared, SourceFile,
};
use crate::tile::{views_of, Tile, TileView};
use vstd::prelude::*;
use vstd::string::StringExecFns;

verus! {

/// The colours of `tiles`, in order.
pub open spec fn colors_of(tiles: Seq<TileView>) -> Seq<Color> {
    Seq::new(tiles.len(), |i: int| tiles[i].color)
}

/// What a library is.
pub struct LibraryView {
    pub tiles: Seq<TileView>,
    pub points: Seq<Color>,
    pub mask: MaskView,
    pub directory: Seq<char>,
    pub tile_size: nat,
    pub sigma_divisor: int,
}

impl LibraryView {
    /// Whether the library was built for this configuration: the same directory, the
    /// same tile size and the same divisor.
    pub open spec fn built_for(self, directory: Seq<char>, tile_size: nat, sigma_divisor: int) -> bool {
        self.directory == directory && self.tile_size == tile_size && self.sigma_divisor
            == sigma_divisor
    }

    /// A library holds at least one tile; every tile and the mask have the tile size of
    /// the library; the mask is the plain average where the divisor is zero or less;
    /// and position `i` of the search index is the colour of tile `i`.
    pub open spec fn wf(self) -> bool {
        &&& self.tiles.len() > 0
        &&& (self.sigma_divisor <= 0 ==> self.mask.is_uniform())
        &&& 0 < self.tile_size <= u32::MAX
        &&& self.mask.wf()
        &&& self.mask.size == self.tile_size
        &&& forall|i: int|
            0 <= i < self.tiles.len() ==> (#[trigger] self.tiles[i]).wf() && self.tiles[i].tile_size
                == self.tile_size
        &&& self.points == colors_of(self.tiles)
    }
}

/// A library is built for a configuration exactly where all three of directory, tile
/// size and divisor agree: it is built for its own, and one differing field is enough
/// for it not to be built for another.
pub proof fn lemma_built_for_its_own_configuration_only(
    library: LibraryView,
    directory: Seq<char>,
    tile_size: nat,
    sigma_divisor: int,
)
    ensures
        library.built_for(library.directory, library.tile_size, library.sigma_divisor),
        directory != library.directory ==> !library.built_for(directory, tile_size, sigma_divisor),
        tile_size != library.tile_size ==> !library.built_for(directory, tile_size, sigma_divisor),
        sigma_divisor != library.sigma_divisor ==> !library.built_for(
            directory,
            tile_size,
            sigma_divisor,
        ),
{
}

/// Whether `res` is what building a library gives for `files`, given for each file
/// the picture that preparing it gave, if any: the library of the tiles of the files,
/// or a configuration error where there is no tile or where the divisor asks for the
/// plain average and the mask is another.
pub open spec fn is_built_from(
    files: Seq<SourceFile>,
    pictures: Seq<Option<RasterView>>,
    mask: MaskView,
    directory: Seq<char>,
    sigma_divisor: int,
    res: Result<TileLibrary, AppError>,
) -> bool {
    let tiles = tiles_from(files, pictures, mask);
    &&& res is Ok <==> tiles.len() > 0 && (sigma_divisor <= 0 ==> mask.is_uniform())
    &&& res matches Ok(library) ==> {
        &&& library@.wf()
        &&& library@.tiles == tiles
        &&& library@.mask == mask
        &&& library@.directory == directory
        &&& library@.tile_size == mask.size
        &&& library@.sigma_divisor == sigma_divisor
    }
    &&& res matches Err(error) ==> error is Config
}

/// The tiles of one source directory, searchable by colour.
pub struct TileLibrary {
    tiles: Vec<Tile>,
    index: ColorIndex,
    mask: WeightingMask,
    directory: String,
    tile_size: u32,
    sigma_divisor: i64,
}

impl View for TileLibrary {
    type V = LibraryView;

    closed spec fn view(&self) -> LibraryView {
        LibraryView {
            tiles: views_of(self.tiles@),
            points: self.index@,
            mask: self.mask@,
            directory: self.directory@,
            tile_size: self.tile_size as nat,
            sigma_divisor: self.sigma_divisor as int,
        }
    }
}

/// Whether a library has to be built before the next run: there is none yet, or the
/// one at hand was built for another directory, tile size or divisor.
pub fn needs_rebuild(
    current: &Option<TileLibrary>,
    directory: &str,
    tile_size: u32,
    sigma_divisor: i64,
) -> (res: bool)
    ensures
        res <==> !(current matches Some(library) && library@.built_for(
            directory@,
            tile_size as nat,
            sigma_divisor as int,
        )),
{
    match current {
        Some(library) => !library.matches_config(directory, tile_size, sigma_divisor),
        None => true,
    }
}

impl TileLibrary {
    /// The library of `tiles`, which were made from the files under `directory` with
    /// `mask`; `sigma_divisor` is the fixed-point divisor the mask was made with (zero
    /// or less for the plain average). Fails with a configuration error where there is
    /// no tile, where the mask or a tile has not the side `tile_size`, or where the
    /// divisor asks for the plain average and the mask is another.
    pub fn new(
        directory: String,
        tile_size: u32,
        sigma_divisor: i64,
        mask: WeightingMask,
        tiles: Vec<Tile>,
    ) -> (res: Result<TileLibrary, AppError>)
        ensures
            res is Ok <==> tiles@.len() > 0 && mask@.size == tile_size && (sigma_divisor <= 0
                ==> mask@.is_uniform()) && forall|i: int|
                0 <= i < tiles@.len() ==> (#[trigger] tiles@[i])@.tile_size == tile_size,
            res matches Ok(library) ==> library@.wf() && library@.tiles == views_of(tiles@)
                && library@.mask == mask@ && library@.directory == directory@
                && library@.tile_size == tile_size && library@.sigma_divisor == sigma_divisor,
            res matches Err(error) ==> error is Config,
    {
        if tiles.len() == 0 {
            return Err(AppError::Config(String::from_str("no usable tile images in the directory")));
        }
        if mask.size() != tile_size {
            return Err(AppError::Config(String::from_str("the mask has not the size of the tiles")));
        }
        if sigma_divisor <= 0 && !mask.is_uniform() {
            return Err(AppError::Config(String::from_str("the mask is not the plain average")));
        }
        let mut points: Vec<Color> = Vec::new();
        let mut i: usize = 0;
        while i < tiles.len()
            invariant
                i <= tiles@.len(),
                points@.len() == i,
                forall|k: int| 0 <= k < i ==> points@[k] == (#[trigger] tiles@[k])@.color,
                forall|k: int|
                    0 <= k < i ==> (#[trigger] tiles@[k])@.wf() && tiles@[k]@.tile_size == tile_size,
            decreases tiles@.len() - i,
        {
            if tiles[i].tile_size() != tile_size {
                return Err(
                    AppError::Config(String::from_str("a tile has not the size of the library")),
                );
            }
            points.push(tiles[i].color());
            i += 1;
        }
        let index = ColorIndex::build(points);
        let library = TileLibrary { tiles, index, mask, directory, tile_size, sigma_divisor };
        assert(library@.points =~= colors_of(library@.tiles));
        Ok(library)
    }

    /// Builds the library from files whose pictures were prepared. Fails with a
    /// configuration error exactly where no file gives a tile, or where the divisor
    /// asks for the plain average and the mask is another.
    pub fn build_of_prepared(
        directory: String,
        sigma_divisor: i64,
        mask: WeightingMask,
        files: Vec<SourceFile>,
        prepared: Vec<Result<Raster, AppError>>,
    ) -> (res: Result<TileLibrary, AppError>)
        requires
            files@.len() == prepared@.len(),
        ensures
            is_built_from(
                files@,
                pictures_of(prepared@),
                mask@,
                directory@,
                sigma_divisor as int,
                res,
            ),
    {
        let tile_size = mask.size();
        let tiles = tiles_of_prepared(files, prepared, &mask);
        proof {
            let origin = lemma_tiles_come_from_files(files@, pictures_of(prepared@), mask@);
            assert forall|i: int| 0 <= i < tiles@.len() implies (#[trigger] tiles@[i])@.tile_size
                == tile_size by {
                assert(views_of(tiles@)[i] == tiles@[i]@);
                assert(0 <= origin[i] < files@.len());
            }
        }
        TileLibrary::new(directory, tile_size, sigma_divisor, mask, tiles)
    }

    /// Builds the library from the files found under `directory`: a tile is made of
    /// every file that is taken for an image and can be decoded. Fails with a
    /// configuration error exactly where no tile comes of it, or where the divisor asks
    /// for the plain average and the mask is another. Whether an image can be decoded
    /// is for the decoder to say: the library is as `is_built_from` says for the
    /// pictures that preparing the files gave.
    pub fn build(
        directory: String,
        sigma_divisor: i64,
        mask: WeightingMask,
        files: Vec<SourceFile>,
    ) -> (res: Result<TileLibrary, AppError>)
        ensures
            exists|pictures: Seq<Option<RasterView>>|
                pictures.len() == files@.len() && well_prepared(pictures, mask@.size)
                    && #[trigger] is_built_from(
                    files@,
                    pictures,
                    mask@,
                    directory@,
                    sigma_divisor as int,
                    res,
                ),
            res matches Ok(library) ==> library@.tiles.len() <= files@.len(),
    {
        let tile_size = mask.size();
        let ghost mask_view = mask@;
        let tiles = load_library(files, &mask);
        let ghost made = views_of(tiles@);
        let res = TileLibrary::new(directory, tile_size, sigma_divisor, mask, tiles);
        proof {
            let pictures = choose|pictures: Seq<Option<RasterView>>|
                pictures.len() == files@.len() && well_prepared(pictures, mask_view.size) && made
                    == #[trigger] tiles_from(files@, pictures, mask_view);
            assert(is_built_from(
                files@,
                pictures,
                mask_view,
                directory@,
                sigma_divisor as int,
                res,
            ));
        }
        res
    }

    /// Whether the library was built for this configuration: the same directory, the
    /// same tile size and the same divisor.
    pub fn matches_config(&self, directory: &str, tile_size: u32, sigma_divisor: i64) -> (res: bool)
        ensures
            res <==> self@.built_for(directory@, tile_size as nat, sigma_divisor as int),
    {
        let asked = String::from_str(directory);
        self.directory == asked && self.tile_size == tile_size && self.sigma_divisor
            == sigma_divisor
    }

    /// Number of tiles.
    pub fn len(&self) -> (n: usize)
        ensures
            n == self@.tiles.len(),
    {
        self.tiles.len()
    }

    /// Side of the tiles.
    pub fn tile_size(&self) -> (size: u32)
        ensures
            size == self@.tile_size,
    {
        self.tile_size
    }

    /// The mask the colours of the tiles were made with.
    pub fn mask(&self) -> (mask: &WeightingMask)
        ensures
            mask@ == self@.mask,
    {
        &self.mask
    }

    /// The search index over the colours of the tiles.
    pub fn index(&self) -> (index: &ColorIndex)
        ensures
            index@ == self@.points,
    {
        &self.index
    }

    /// Tile `i`.
    pub fn tile(&self, i: usize) -> (tile: &Tile)
        requires
            i < self@.tiles.len(),
        ensures
            tile@ == self@.tiles[i as int],
    {
        &self.tiles[i]
    }

    /// The tiles, in the order of the search index.
    pub fn tiles(&self) -> (tiles: &Vec<Tile>)
        ensures
            views_of(tiles@) == self@.tiles,
    {
        &self.tiles
    }

    /// Fills the cache of tile `i` from a prepared picture unless it is filled already.
    /// Fails with an image error that names the path of the tile where preparing
    /// failed or the picture has not the size of the tile; nothing changes then.
    pub fn store_prepared(&mut self, i: usize, prepared: Result<Raster, AppError>) -> (res: Result<
        (),
        AppError,
    >)
        requires
            old(self)@.wf(),
            i < old(self)@.tiles.len(),
        ensures
            final(self)@.wf(),
            final(self)@.tiles.len() == old(self)@.tiles.len(),
            forall|k: int|
                0 <= k < old(self)@.tiles.len() && k != i ==> final(self)@.tiles[k] == old(
                    self,
                )@.tiles[k],
            final(self)@.points == old(self)@.points,
            final(self)@.mask == old(self)@.mask,
            final(self)@.directory == old(self)@.directory,
            final(self)@.tile_size == old(self)@.tile_size,
            final(self)@.sigma_divisor == old(self)@.sigma_divisor,
            old(self)@.tiles[i as int].image is Some ==> res is Ok && final(self)@ == old(self)@,
            old(self)@.tiles[i as int].image is None ==> (res is Ok <==> (prepared matches Ok(
                picture,
            ) && picture@.width == old(self)@.tile_size && picture@.height == old(
                self,
            )@.tile_size)),
            old(self)@.tiles[i as int].image is None && res is Ok ==> (prepared matches Ok(picture)
                && final(self)@.tiles[i as int] == old(self)@.tiles[i as int].with_image(picture@)),
            res matches Err(error) ==> error is Image && old(self)@.tiles[i as int].path.is_prefix_of(
                error.detail(),
            ) && final(self)@ == old(self)@,
    {
        let ghost before = self@;
        let mut slot = Tile::stand_in(&self.tiles[i]);
        self.tiles.set_and_swap(i, &mut slot);
        let res = slot.store_prepared(prepared);
        let mut back = slot;
        self.tiles.set_and_swap(i, &mut back);
        proof {
            assert forall|k: int| 0 <= k < before.tiles.len() && k != i implies self@.tiles[k]
                == before.tiles[k] by {
            }
            assert forall|k: int| 0 <= k < self@.tiles.len() implies (#[trigger] self@.tiles[k]).wf()
                && self@.tiles[k].tile_size == self@.tile_size by {
                if k != i {
                    assert(self@.tiles[k] == before.tiles[k]);
                }
            }
            assert(colors_of(self@.tiles) =~= colors_of(before.tiles)) by {
                assert forall|k: int| 0 <= k < before.tiles.len() implies colors_of(self@.tiles)[k]
                    == colors_of(before.tiles)[k] by {
                }
            }
            if res is Err || before.tiles[i as int].image is Some {
                assert(self@.tiles =~= before.tiles);
            }
        }
        res
    }

    /// Fills the cache of tile `i` from its encoded source image unless it is filled
    /// already. Fails with an image error that names the path of the tile where the
    /// image cannot be decoded or resized; nothing changes then.
    pub fn store_image(&mut self, i: usize, bytes: &Vec<u8>) -> (res: Result<(), AppError>)
        requires
            old(self)@.wf(),
            i < old(self)@.tiles.len(),
        ensures
            final(self)@.wf(),
            final(self)@.tiles.len() == old(self)@.tiles.len(),
            forall|k: int|
                0 <= k < old(self)@.tiles.len() && k != i ==> final(self)@.tiles[k] == old(
                    self,
                )@.tiles[k],
            final(self)@.points == old(self)@.points,
            old(self)@.tiles[i as int].image is Some ==> res is Ok && final(self)@ == old(self)@,
            res is Ok ==> final(self)@.tiles[i as int].image is Some,
            res matches Err(error) ==> error is Image && old(self)@.tiles[i as int].path.is_prefix_of(
                error.detail(),
            ) && final(self)@ == old(self)@,
    {
        if self.tiles[i].is_loaded() {
            return Ok(());
        }
        let prepared = Tile::prepare(bytes, self.tile_size);
        self.store_prepared(i, prepared)
    }
}

} // verus!
