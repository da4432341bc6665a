//! Tiles: source images known by their path and average colour, each with a cache
//! for its decoded picture.

use crate::average::{tiles_avg_rgb, weighted_average};
use crate::color::Color;
use crate::errors::AppError;
use crate::mask::WeightingMask;
use crate::raster::{Raster, RasterView};
use vstd::prelude::*;

verus! {

/// What a tile is.
pub struct TileView {
    pub path: Seq<char>,
    pub color: Color,
    pub tile_size: nat,
    pub image: Option<RasterView>,
}

impl TileView {
    /// The colour is a colour, the side is positive, and a cached picture is a square
    /// of that side.
    pub open spec fn wf(self) -> bool {
        &&& self.color.valid()
        &&& 0 < self.tile_size <= u32::MAX
        &&& self.image matches Some(picture) ==> picture.wf() && picture.width == self.tile_size
            && picture.height == self.tile_size
    }

    /// The same tile with `picture` in its cache.
    pub open spec fn with_image(self, picture: RasterView) -> TileView {
        TileView { image: Some(picture), ..self }
    }
}

/// The views of `tiles`, in order.
pub open spec fn views_of(tiles: Seq<Tile>) -> Seq<TileView> {
    Seq::new(tiles.len(), |i: int| tiles[i]@)
}

/// A source image: where it is, its average colour, the side of the cells it is made
/// for, and, once loaded, its picture at that size.
pub struct Tile {
    path: String,
    color: Color,
    tile_size: u32,
    image: Option<Raster>,
}

impl View for Tile {
    type V = TileView;

    closed spec fn view(&self) -> TileView {
        TileView {
            path: self.path@,
            color: self.color,
            tile_size: self.tile_size as nat,
            image: match self.image {
                Some(picture) => Some(picture@),
                None => None,
            },
        }
    }
}

impl Tile {
    #[verifier::type_invariant]
    spec fn inv(self) -> bool {
        self@.wf()
    }

    /// A tile without a cached picture; `None` where the side is zero or a channel of
    /// the colour is above 255.
    pub fn new(path: String, color: Color, tile_size: u32) -> (res: Option<Tile>)
        ensures
            res is Some <==> tile_size > 0 && color.valid(),
            res matches Some(tile) ==> tile@.wf() && tile@ == (TileView {
                path: path@,
                color,
                tile_size: tile_size as nat,
                image: None,
            }),
    {
        if tile_size == 0 || color.r > crate::fixed::CHANNEL_LIMIT || color.g
            > crate::fixed::CHANNEL_LIMIT || color.b > crate::fixed::CHANNEL_LIMIT {
            return None;
        }
        Some(Tile { path, color, tile_size, image: None })
    }

    /// The tile of a source image that was decoded and resized: its colour is the
    /// weighted average of the picture under `mask`, and the picture itself is let go.
    /// `None` where preparing the picture failed or it has not the size of the mask.
    pub fn from_prepared(path: String, prepared: Result<Raster, AppError>, mask: &WeightingMask) -> (res:
        Option<Tile>)
        ensures
            res is Some <==> (prepared matches Ok(picture) && picture@.width == mask@.size
                && picture@.height == mask@.size),
            res matches Some(tile) ==> (prepared matches Ok(picture) && tile@.wf() && tile@
                == (TileView {
                path: path@,
                color: weighted_average(picture@, mask@),
                tile_size: mask@.size,
                image: None,
            })),
    {
        let size = mask.size();
        match prepared {
            Ok(picture) => {
                if picture.width() != size || picture.height() != size {
                    return None;
                }
                let color = tiles_avg_rgb(&picture, mask);
                Some(Tile { path, color, tile_size: size, image: None })
            },
            Err(_) => None,
        }
    }

    /// Decodes a source image, turns it upright, and scales and crops it to a square
    /// of side `size`.
    pub fn prepare(bytes: &Vec<u8>, size: u32) -> (res: Result<Raster, AppError>)
        ensures
            res matches Ok(picture) ==> picture@.wf() && picture@.width == size && picture@.height
                == size,
            res matches Err(error) ==> error is Image,
    {
        match Raster::decode(bytes) {
            Ok(decoded) => decoded.resize_to_fill(size, size),
            Err(error) => Err(error),
        }
    }

    /// A tile with the path, colour and side of `tile` and an empty cache.
    pub fn stand_in(tile: &Tile) -> (copy: Tile)
        ensures
            copy@ == (TileView { image: None, ..tile@ }),
            copy@.wf(),
    {
        proof {
            use_type_invariant(tile);
        }
        Tile { path: tile.path.clone(), color: tile.color, tile_size: tile.tile_size, image: None }
    }

    /// Where the source image is.
    pub fn path(&self) -> (path: &String)
        ensures
            path@ == self@.path,
            self@.wf(),
    {
        proof {
            use_type_invariant(self);
        }
        &self.path
    }

    /// Average colour of the source image.
    pub fn color(&self) -> (color: Color)
        ensures
            color == self@.color,
            self@.wf(),
    {
        proof {
            use_type_invariant(self);
        }
        self.color
    }

    /// Side of the cells the tile is made for.
    pub fn tile_size(&self) -> (size: u32)
        ensures
            size == self@.tile_size,
            self@.wf(),
    {
        proof {
            use_type_invariant(self);
        }
        self.tile_size
    }

    /// The cached picture, if it has been loaded.
    pub fn image(&self) -> (res: Option<&Raster>)
        ensures
            res matches Some(picture) ==> self@.image == Some(picture@),
            res is None ==> self@.image is None,
            self@.wf(),
    {
        proof {
            use_type_invariant(self);
        }
        match &self.image {
            Some(picture) => Some(picture),
            None => None,
        }
    }

    /// Whether the picture has been loaded.
    pub fn is_loaded(&self) -> (loaded: bool)
        ensures
            loaded == self@.image is Some,
            self@.wf(),
    {
        proof {
            use_type_invariant(self);
        }
        self.image.is_some()
    }

    /// Fills the cache from a prepared picture unless it is filled already: a cached
    /// picture is never replaced. Fails with an image error that names the path where
    /// preparing failed or the picture has not the size of the tile; the tile then
    /// stays as it was.
    pub fn store_prepared(&mut self, prepared: Result<Raster, AppError>) -> (res: Result<
        (),
        AppError,
    >)
        ensures
            final(self)@.wf(),
            old(self)@.image is Some ==> res is Ok && final(self)@ == old(self)@,
            old(self)@.image is None ==> (res is Ok <==> (prepared matches Ok(picture)
                && picture@.width == old(self)@.tile_size && picture@.height == old(
                self,
            )@.tile_size)),
            old(self)@.image is None && res is Ok ==> (prepared matches Ok(picture) && final(self)@
                == old(self)@.with_image(picture@)),
            res matches Err(error) ==> error is Image && old(self)@.path.is_prefix_of(
                error.detail(),
            ) && final(self)@ == old(self)@,
    {
        proof {
            use_type_invariant(&*self);
        }
        if self.image.is_some() {
            return Ok(());
        }
        match prepared {
            Ok(picture) => {
                if picture.width() != self.tile_size || picture.height() != self.tile_size {
                    return Err(
                        AppError::image_at(self.path.as_str(), "picture has not the size of the tile"),
                    );
                }
                self.image = Some(picture);
                Ok(())
            },
            Err(error) => {
                let kept = AppError::Image(error.into_detail());
                Err(kept.at_path(self.path.as_str()))
            },
        }
    }

    /// Fills the cache from the encoded source image unless it is filled already.
    /// Fails with an image error that names the path where the image cannot be
    /// decoded or resized.
    pub fn load_image(&mut self, bytes: &Vec<u8>) -> (res: Result<(), AppError>)
        ensures
            final(self)@.wf(),
            old(self)@.image is Some ==> res is Ok && final(self)@ == old(self)@,
            res is Ok ==> final(self)@.image is Some && final(self)@.path == old(self)@.path
                && final(self)@.color == old(self)@.color && final(self)@.tile_size == old(
                self,
            )@.tile_size,
            res matches Err(error) ==> error is Image && old(self)@.path.is_prefix_of(
                error.detail(),
            ) && final(self)@ == old(self)@,
    {
        proof {
            use_type_invariant(&*self);
        }
        if self.image.is_some() {
            return Ok(());
        }
        let prepared = Tile::prepare(bytes, self.tile_size);
        self.store_prepared(prepared)
    }
}

} // verus!
