use digital_elevation_model::database::{METERS_200_BITS, METERS_463_BITS};
use digital_elevation_model::profile::ONE_BITS;
use digital_elevation_model::{
    BilinearCell, DatabaseEntry, Dem, DemError, DemProfile, MarsHrscMolaBlend, MarsMola, Raster,
};

fn profile(width: u32, height: u32) -> DemProfile {
    DemProfile { width, height, meters_per_pixel_bits: ONE_BITS, max_elevation_bits: ONE_BITS }
}

/// A raster whose sample at `(x, y)` is `100 * y + x`.
fn numbered(width: u32, height: u32) -> Raster {
    let mut samples = Vec::new();
    for y in 0..height {
        for x in 0..width {
            samples.push((100 * y + x) as u16);
        }
    }
    Raster::new(width, height, samples).unwrap()
}

#[test]
fn raster_new_keeps_its_parts() {
    let r = Raster::new(3, 2, vec![1, 2, 3, 4, 5, 6]).unwrap();
    assert_eq!(r.width(), 3);
    assert_eq!(r.height(), 2);
    assert_eq!(r.sample(0, 0), Ok(1));
    assert_eq!(r.sample(2, 0), Ok(3));
    assert_eq!(r.sample(0, 1), Ok(4));
    assert_eq!(r.sample(2, 1), Ok(6));
}

#[test]
fn raster_new_refuses_samples_that_do_not_fill_it() {
    assert_eq!(Raster::new(3, 2, vec![1, 2, 3, 4, 5]), Err(DemError::DecodeFailure));
    assert_eq!(Raster::new(3, 2, vec![0; 7]), Err(DemError::DecodeFailure));
    assert_eq!(Raster::new(0, 2, vec![0]), Err(DemError::DecodeFailure));
    assert!(Raster::new(0, 2, vec![]).is_ok());
}

#[test]
fn raster_sample_refuses_pixels_outside() {
    let r = numbered(3, 2);
    assert_eq!(r.sample(3, 0), Err(DemError::IndexOutOfBounds));
    assert_eq!(r.sample(0, 2), Err(DemError::IndexOutOfBounds));
    assert_eq!(r.sample(u32::MAX, u32::MAX), Err(DemError::IndexOutOfBounds));
}

#[test]
fn from_parts_keeps_its_parts() {
    let p = profile(100, 50);
    let c = Dem::from_parts(8, 4, 3, 2, p, vec![1, 2, 3, 4, 5, 6]).unwrap();
    assert_eq!(c.width_offset(), 8);
    assert_eq!(c.height_offset(), 4);
    assert_eq!(c.width(), 3);
    assert_eq!(c.height(), 2);
    assert_eq!(c.profile(), p);
    assert_eq!(c.grid(), &vec![1, 2, 3, 4, 5, 6]);
}

#[test]
fn from_parts_refuses_a_grid_that_does_not_fill_the_chunk() {
    let p = profile(100, 50);
    assert_eq!(Dem::from_parts(0, 0, 3, 2, p, vec![0; 5]), Err(DemError::CorruptChunk));
    assert_eq!(Dem::from_parts(0, 0, 3, 2, p, vec![0; 7]), Err(DemError::CorruptChunk));
    assert_eq!(Dem::from_parts(0, 0, 3, 2, p, vec![]), Err(DemError::CorruptChunk));
    assert!(Dem::from_parts(0, 0, 0, 0, p, vec![]).is_ok());
}

#[test]
fn get_elevation_reads_row_by_row() {
    let c = Dem::from_parts(0, 0, 3, 2, profile(3, 2), vec![10, 11, 12, 20, 21, 22]).unwrap();
    assert_eq!(c.get_elevation(0, 0), Ok(10));
    assert_eq!(c.get_elevation(2, 0), Ok(12));
    assert_eq!(c.get_elevation(0, 1), Ok(20));
    assert_eq!(c.get_elevation(1, 1), Ok(21));
    assert_eq!(c.get_elevation(2, 1), Ok(22));
}

#[test]
fn get_elevation_refuses_pixels_outside() {
    let c = Dem::from_parts(0, 0, 3, 2, profile(3, 2), vec![10, 11, 12, 20, 21, 22]).unwrap();
    assert_eq!(c.get_elevation(3, 0), Err(DemError::IndexOutOfBounds));
    assert_eq!(c.get_elevation(0, 2), Err(DemError::IndexOutOfBounds));
    assert_eq!(c.get_elevation(3, 1), Err(DemError::IndexOutOfBounds));
}

#[test]
fn bilinear_cell_inside_the_chunk() {
    let c = Dem::from_parts(0, 0, 3, 2, profile(3, 2), vec![10, 11, 12, 20, 21, 22]).unwrap();
    assert_eq!(
        c.bilinear_cell(1, 0),
        Ok(BilinearCell { x0: 1, y0: 0, x1: 2, y1: 1, v00: 11, v10: 12, v01: 21, v11: 22 })
    );
}

#[test]
fn bilinear_cell_holds_back_at_the_last_column_and_row() {
    let c = Dem::from_parts(0, 0, 3, 2, profile(3, 2), vec![10, 11, 12, 20, 21, 22]).unwrap();
    assert_eq!(
        c.bilinear_cell(2, 0),
        Ok(BilinearCell { x0: 2, y0: 0, x1: 2, y1: 1, v00: 12, v10: 12, v01: 22, v11: 22 })
    );
    assert_eq!(
        c.bilinear_cell(0, 1),
        Ok(BilinearCell { x0: 0, y0: 1, x1: 1, y1: 1, v00: 20, v10: 21, v01: 20, v11: 21 })
    );
    assert_eq!(
        c.bilinear_cell(2, 1),
        Ok(BilinearCell { x0: 2, y0: 1, x1: 2, y1: 1, v00: 22, v10: 22, v01: 22, v11: 22 })
    );
}

#[test]
fn bilinear_cell_holds_back_points_beyond_the_chunk() {
    let c = Dem::from_parts(0, 0, 3, 2, profile(3, 2), vec![10, 11, 12, 20, 21, 22]).unwrap();
    let corner = BilinearCell { x0: 2, y0: 1, x1: 2, y1: 1, v00: 22, v10: 22, v01: 22, v11: 22 };
    assert_eq!(c.bilinear_cell(3, 2), Ok(corner));
    assert_eq!(c.bilinear_cell(u32::MAX, u32::MAX), Ok(corner));
    assert_eq!(
        c.bilinear_cell(7, 0),
        Ok(BilinearCell { x0: 2, y0: 0, x1: 2, y1: 1, v00: 12, v10: 12, v01: 22, v11: 22 })
    );
}

#[test]
fn bilinear_cell_of_a_single_column() {
    let c = Dem::from_parts(0, 0, 1, 3, profile(1, 3), vec![5, 6, 7]).unwrap();
    for x in [0, 1, 9] {
        assert_eq!(
            c.bilinear_cell(x, 1),
            Ok(BilinearCell { x0: 0, y0: 1, x1: 0, y1: 2, v00: 6, v10: 6, v01: 7, v11: 7 })
        );
    }
}

#[test]
fn bilinear_cell_of_a_single_row() {
    let c = Dem::from_parts(0, 0, 3, 1, profile(3, 1), vec![5, 6, 7]).unwrap();
    for y in [0, 1, 9] {
        assert_eq!(
            c.bilinear_cell(1, y),
            Ok(BilinearCell { x0: 1, y0: 0, x1: 2, y1: 0, v00: 6, v10: 7, v01: 6, v11: 7 })
        );
    }
}

#[test]
fn bilinear_cell_of_a_single_pixel() {
    let c = Dem::from_parts(0, 0, 1, 1, profile(1, 1), vec![9]).unwrap();
    assert_eq!(
        c.bilinear_cell(4, 4),
        Ok(BilinearCell { x0: 0, y0: 0, x1: 0, y1: 0, v00: 9, v10: 9, v01: 9, v11: 9 })
    );
}

#[test]
fn bilinear_cell_of_an_empty_chunk_is_refused() {
    let c = Dem::from_parts(0, 0, 0, 0, profile(0, 0), vec![]).unwrap();
    assert_eq!(c.bilinear_cell(0, 0), Err(DemError::IndexOutOfBounds));
    let d = Dem::from_parts(0, 0, 0, 5, profile(0, 5), vec![]).unwrap();
    assert_eq!(d.bilinear_cell(0, 0), Err(DemError::IndexOutOfBounds));
}

#[test]
fn load_chunks_refuses_a_raster_of_other_dimensions() {
    let r = numbered(4, 4);
    assert_eq!(
        Dem::load_chunks_from_image(&r, 2, 2, profile(4, 5)),
        Err(DemError::DimensionMismatch)
    );
    assert_eq!(
        Dem::load_chunks_from_image(&r, 2, 2, profile(5, 4)),
        Err(DemError::DimensionMismatch)
    );
}

#[test]
fn load_chunks_gives_one_chunk_when_the_raster_fits() {
    let r = numbered(4, 4);
    let chunks = Dem::load_chunks_from_image(&r, 4, 4, profile(4, 4)).unwrap();
    assert_eq!(chunks.len(), 1);
    assert_eq!(
        chunks[0],
        Dem::from_parts(
            0,
            0,
            4,
            4,
            profile(4, 4),
            vec![0, 1, 2, 3, 100, 101, 102, 103, 200, 201, 202, 203, 300, 301, 302, 303],
        )
        .unwrap()
    );
}

#[test]
fn load_chunks_splits_evenly() {
    let r = numbered(4, 2);
    let p = profile(4, 2);
    let chunks = Dem::load_chunks_from_image(&r, 2, 1, p).unwrap();
    assert_eq!(
        chunks,
        vec![
            Dem::from_parts(0, 0, 2, 1, p, vec![0, 1]).unwrap(),
            Dem::from_parts(2, 0, 2, 1, p, vec![2, 3]).unwrap(),
            Dem::from_parts(0, 1, 2, 1, p, vec![100, 101]).unwrap(),
            Dem::from_parts(2, 1, 2, 1, p, vec![102, 103]).unwrap(),
        ]
    );
}

#[test]
fn load_chunks_cuts_the_last_tiles_short() {
    let r = numbered(5, 3);
    let p = profile(5, 3);
    let chunks = Dem::load_chunks_from_image(&r, 3, 2, p).unwrap();
    assert_eq!(
        chunks,
        vec![
            Dem::from_parts(0, 0, 3, 2, p, vec![0, 1, 2, 100, 101, 102]).unwrap(),
            Dem::from_parts(3, 0, 2, 2, p, vec![3, 4, 103, 104]).unwrap(),
            Dem::from_parts(0, 2, 3, 1, p, vec![200, 201, 202]).unwrap(),
            Dem::from_parts(3, 2, 2, 1, p, vec![203, 204]).unwrap(),
        ]
    );
}

#[test]
fn load_chunks_of_a_width_that_the_last_tile_does_not_divide() {
    let r = numbered(11, 1);
    let p = profile(11, 1);
    let chunks = Dem::load_chunks_from_image(&r, 4, 4, p).unwrap();
    assert_eq!(
        chunks,
        vec![
            Dem::from_parts(0, 0, 4, 1, p, vec![0, 1, 2, 3]).unwrap(),
            Dem::from_parts(4, 0, 4, 1, p, vec![4, 5, 6, 7]).unwrap(),
            Dem::from_parts(8, 0, 3, 1, p, vec![8, 9, 10]).unwrap(),
        ]
    );
}

#[test]
fn load_chunks_of_an_empty_raster_gives_no_chunk() {
    let r = Raster::new(0, 0, vec![]).unwrap();
    assert_eq!(Dem::load_chunks_from_image(&r, 4, 4, profile(0, 0)), Ok(vec![]));
}

#[test]
fn load_chunks_gives_each_chunk_the_profile() {
    let r = numbered(5, 3);
    let p = DemProfile {
        width: 5,
        height: 3,
        meters_per_pixel_bits: METERS_463_BITS,
        max_elevation_bits: 0x42C8_0000,
    };
    for chunk in Dem::load_chunks_from_image(&r, 2, 2, p).unwrap() {
        assert_eq!(chunk.profile(), p);
    }
}

#[test]
fn every_pixel_is_found_in_the_chunk_of_its_tile() {
    for (w, h, cw, ch) in [(5u32, 3u32, 3u32, 2u32), (11, 4, 4, 3), (7, 7, 1, 1), (6, 5, 9, 9)] {
        let r = numbered(w, h);
        let chunks = Dem::load_chunks_from_image(&r, cw, ch, profile(w, h)).unwrap();
        let tiles_x = (w + cw - 1) / cw;
        for y in 0..h {
            for x in 0..w {
                let chunk = &chunks[((y / ch) * tiles_x + x / cw) as usize];
                let local_x = x - chunk.width_offset();
                let local_y = y - chunk.height_offset();
                assert_eq!(chunk.get_elevation(local_x, local_y), r.sample(x, y));
            }
        }
    }
}

#[test]
fn every_chunk_sample_comes_from_the_raster() {
    let r = numbered(11, 4);
    let chunks = Dem::load_chunks_from_image(&r, 4, 3, profile(11, 4)).unwrap();
    let mut seen = 0usize;
    for chunk in &chunks {
        assert_eq!(chunk.grid().len(), (chunk.width() * chunk.height()) as usize);
        for y in 0..chunk.height() {
            for x in 0..chunk.width() {
                assert_eq!(
                    chunk.get_elevation(x, y),
                    r.sample(chunk.width_offset() + x, chunk.height_offset() + y)
                );
                seen += 1;
            }
        }
    }
    assert_eq!(seen, 44);
}

#[test]
fn clones_are_equal_to_what_they_were_made_from() {
    let r = numbered(3, 2);
    assert_eq!(r.clone(), r);
    let c = Dem::from_parts(8, 4, 3, 2, profile(100, 50), vec![1, 2, 3, 4, 5, 6]).unwrap();
    let d = c.clone();
    assert_eq!(d, c);
    assert_eq!(d.grid(), &vec![1, 2, 3, 4, 5, 6]);
    assert_eq!((d.width_offset(), d.height_offset(), d.width(), d.height()), (8, 4, 3, 2));
    assert_eq!(d.profile(), profile(100, 50));
}

#[test]
fn each_error_has_its_message() {
    assert_eq!(DemError::DimensionMismatch.message(), "raster dimensions differ from the profile");
    assert_eq!(DemError::DecodeFailure.message(), "raster samples do not fill its dimensions");
    assert_eq!(DemError::IndexOutOfBounds.message(), "pixel outside the chunk");
    assert_eq!(DemError::CorruptChunk.message(), "chunk grid does not fill its dimensions");
}

#[test]
fn default_profile_is_one_pixel_of_one_meter() {
    let p = DemProfile::default();
    assert_eq!(p.width, 1);
    assert_eq!(p.height, 1);
    assert_eq!(f32::from_bits(p.meters_per_pixel_bits), 1.0);
    assert_eq!(f32::from_bits(p.max_elevation_bits), 1.0);
}

#[test]
fn scale_constants_are_the_bits_of_their_numbers() {
    assert_eq!(ONE_BITS, 1.0f32.to_bits());
    assert_eq!(METERS_200_BITS, 200.0f32.to_bits());
    assert_eq!(METERS_463_BITS, 463.0f32.to_bits());
}

#[test]
fn mars_mola_is_on_record() {
    assert_eq!(
        MarsMola::ORIGINAL_DATA_SRC,
        "https://planetarymaps.usgs.gov/mosaic/Mars_MGS_MOLA_DEM_mosaic_global_463m.tif"
    );
    assert_eq!(
        MarsMola::ARCHIVED_DATA_SRC,
        "https://drive.google.com/file/d/1wWgo6Fg_CNKGA26MO2i125k1knwDA6fs/view?usp=sharing"
    );
    assert_eq!(f32::from_bits(MarsMola::METERS_PER_PIXEL_BITS), 463.0);
    assert_eq!(f32::from_bits(MarsMola::MAX_ELEVATION_BITS), 1.0);
    assert_eq!(
        MarsMola::dem_profile(),
        Some(DemProfile {
            width: 46080,
            height: 23040,
            meters_per_pixel_bits: 463.0f32.to_bits(),
            max_elevation_bits: 1.0f32.to_bits(),
        })
    );
    assert_eq!(MarsMola::CHUNK_SIZE, 8192);
}

#[test]
fn mars_hrsc_mola_blend_is_on_record_without_dimensions() {
    assert_eq!(
        MarsHrscMolaBlend::ORIGINAL_DATA_SRC,
        "https://planetarymaps.usgs.gov/mosaic/Mars/HRSC_MOLA_Blend/Mars_HRSC_MOLA_BlendDEM_Global_200mp_v2.tif"
    );
    assert_eq!(
        MarsHrscMolaBlend::ARCHIVED_DATA_SRC,
        "https://drive.google.com/file/d/1G_x3rypkYM_UoqroRskB8oMpKIKr55S3/view?usp=sharing"
    );
    assert_eq!(f32::from_bits(MarsHrscMolaBlend::METERS_PER_PIXEL_BITS), 200.0);
    assert_eq!(f32::from_bits(MarsHrscMolaBlend::MAX_ELEVATION_BITS), 1.0);
    assert_eq!(MarsHrscMolaBlend::dem_profile(), None);
    assert_eq!(MarsHrscMolaBlend::CHUNK_SIZE, 8192);
}
