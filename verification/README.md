# image_sample

Pixel sampling for resizing, thumbnails, 3x3 filtering and unsharp masking.

`src/` is the verified library (Verus). It holds everything that these filters
decide with integers: the pixel buffer (`image`), the input windows of the
separable resampling passes (`window`, `sample`), the neighbourhoods of the 3x3
filter (`convolve`), thumbnail averaging over `u16` components (`thumbnail`), the
unsharpen mask over `i32` components (`unsharpen`), the filter supports and the same-size copy of `resize`
(`filter`). Floating-point work (kernels, weights, blending, colour conversions)
is handed to the library's drivers as closures.

`app/` is ordinary Rust: the kernels and the public floating-point entry points
(`resize`, `blur`, `unsharpen`, `thumbnail`, `filter3x3`, `sample_*`,
`interpolate_*`) over `pixeli` pixel types.

`tests/` runs the library on concrete images.
