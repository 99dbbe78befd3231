use image::png::PNGEncoder;
use image::ColorType;
use mandelbrot::bands::{bands, split_bands};
use mandelbrot::bytes::rgb_bytes;
use mandelbrot::raster::{blank_buffer, pixel_index, render, Rgb, BACKGROUND};
use num::Complex;
use probability::prelude::{Continuous, Gaussian};

// The numeric kernel as a caller supplies it to `render`.

fn escape_time(c: Complex<f64>, limit: u32) -> Option<u32> {
    let mut z = Complex { re: 0.0, im: 0.0 };
    for i in 0..limit {
        z = z * z + c;
        if z.norm_sqr() > 4.0 {
            return Some(i);
        }
    }
    None
}

fn pixel_to_point(
    bounds: (usize, usize),
    pixel: (usize, usize),
    upper_left: Complex<f64>,
    lower_right: Complex<f64>,
) -> Complex<f64> {
    let (width, height) = (
        lower_right.re - upper_left.re,
        upper_left.im - lower_right.im,
    );
    Complex {
        re: upper_left.re + pixel.0 as f64 * width / bounds.0 as f64,
        im: upper_left.im - pixel.1 as f64 * height / bounds.1 as f64,
    }
}

fn calculate_rgb(limit: u32, value: f64) -> Rgb {
    let sigma = limit as f64 / 2.0 / 2.3548;
    let blue = limit as f64 / 6.0;
    let green = blue + limit as f64 / 3.0;
    let red = green + limit as f64 / 3.0;
    let scale = limit as f64 * (2.0 * std::f64::consts::PI * sigma.powi(2)).sqrt();
    let channel = |centre: f64| {
        (scale * Gaussian::new(centre, sigma).density(value))
            .max(0.0)
            .min(255.0) as u8
    };
    (channel(red), channel(green), channel(blue))
}

fn render_image(
    bounds: (usize, usize),
    upper_left: Complex<f64>,
    lower_right: Complex<f64>,
    limit: u32,
    workers: usize,
) -> Vec<Rgb> {
    let mut pixels = blank_buffer(bounds);
    let layout = bands(bounds.1, workers);
    {
        let parts = split_bands(&mut pixels, bounds, &layout);
        crossbeam::scope(|spawner| {
            for (band, part) in layout.iter().zip(parts) {
                let band_bounds = (bounds.0, band.height);
                let band_upper_left =
                    pixel_to_point(bounds, (0, band.top), upper_left, lower_right);
                let band_lower_right = pixel_to_point(
                    bounds,
                    (bounds.0, band.top + band.height),
                    upper_left,
                    lower_right,
                );
                spawner.spawn(move || {
                    render(
                        part,
                        band_bounds,
                        |column, row| {
                            escape_time(
                                pixel_to_point(
                                    band_bounds,
                                    (column, row),
                                    band_upper_left,
                                    band_lower_right,
                                ),
                                limit,
                            )
                        },
                        |count| calculate_rgb(limit, count as f64),
                    )
                });
            }
        });
    }
    pixels
}

#[test]
fn hundred_by_hundred_on_eight_workers() {
    let bounds = (100, 100);
    let pixels = render_image(
        bounds,
        Complex { re: -1.0, im: 1.0 },
        Complex { re: 1.0, im: -1.0 },
        255,
        8,
    );
    assert_eq!(pixels.len(), 100 * 100);
    assert_eq!(pixels[pixel_index(bounds, 50, 50)], BACKGROUND);
    assert_eq!(pixels[pixel_index(bounds, 50, 50)], (40, 40, 40));
    // The corner -1+i leaves the circle of radius two at the third step.
    assert_eq!(pixels[pixel_index(bounds, 0, 0)], calculate_rgb(255, 2.0));
    assert!(pixels.iter().all(|pixel| *pixel != (0, 0, 0)));
}

#[test]
fn one_worker_and_eight_fill_the_same_places() {
    let bounds = (40, 30);
    let paint = |workers: usize| {
        let mut pixels = blank_buffer(bounds);
        let layout = bands(bounds.1, workers);
        {
            let parts = split_bands(&mut pixels, bounds, &layout);
            for (band, part) in layout.iter().zip(parts) {
                let top = band.top;
                render(
                    part,
                    (bounds.0, band.height),
                    move |column, row| {
                        if (column + top + row) % 5 == 0 {
                            None
                        } else {
                            Some((column * (top + row)) as u32)
                        }
                    },
                    |count| (count as u8, (count >> 8) as u8, 9),
                );
            }
        }
        pixels
    };
    let whole = paint(1);
    assert_eq!(paint(8), whole);
    assert_eq!(paint(3), whole);
    assert_eq!(paint(30), whole);
    assert_eq!(paint(31), whole);
    for row in 0..bounds.1 {
        for column in 0..bounds.0 {
            let expected = if (column + row) % 5 == 0 {
                BACKGROUND
            } else {
                ((column * row) as u8, ((column * row) >> 8) as u8, 9)
            };
            assert_eq!(whole[pixel_index(bounds, column, row)], expected);
        }
    }
}

#[test]
fn png_gives_back_the_bytes_of_the_buffer() {
    let bounds = (100, 100);
    let pixels = render_image(
        bounds,
        Complex { re: -1.0, im: 1.0 },
        Complex { re: 1.0, im: -1.0 },
        255,
        8,
    );
    let bytes = rgb_bytes(&pixels);
    assert_eq!(bytes.len(), 3 * 100 * 100);
    let mut file = Vec::new();
    PNGEncoder::new(&mut file)
        .encode(&bytes, 100, 100, ColorType::RGB(8))
        .unwrap();
    let decoded = image::load_from_memory(&file).unwrap().to_rgb();
    assert_eq!(decoded.dimensions(), (100, 100));
    assert_eq!(decoded.into_raw(), bytes);
}
