use rustfft::num_complex::Complex;
use rustfft::FFTplanner;
use spectrum_analyzer::analyzer::Analyzer;
use spectrum_analyzer::bits::ONE;
use spectrum_analyzer::error::Error;
use spectrum_analyzer::window::Window;

const NUM_BUCKETS: usize = 16;
const SAMPLE_RATE: usize = 44100;

fn bits(values: &[f32]) -> Vec<u32> {
    values.iter().map(|v| v.to_bits()).collect()
}

fn configure(
    fft_len: usize,
    bucket_len: usize,
    window: Window,
    lower: f32,
    upper: f32,
    sampling_rate: f32,
) -> Result<Analyzer, Error> {
    let top = upper.min(sampling_rate / 2.0);
    let width = (top - lower) / bucket_len as f32;
    let interior: Vec<u32> =
        (1..bucket_len).map(|k| (lower + k as f32 * width).to_bits()).collect();
    Analyzer::new(
        fft_len,
        bucket_len,
        window,
        lower.to_bits(),
        upper.to_bits(),
        sampling_rate.to_bits(),
        &interior,
    )
}

fn generate_samples(len: usize) -> Vec<f32> {
    (0..len)
        .map(|n| {
            let t = n as f32 / SAMPLE_RATE as f32;
            0.25 * (2.0 * std::f32::consts::PI * 440.0 * t).sin()
        })
        .collect()
}

fn calculate_spectrum(analyzer: &Analyzer, samples: &[f32]) -> Result<Vec<f32>, Error> {
    let frame = analyzer.latest_samples(&bits(samples))?;
    let window = analyzer.window().generate(frame.len()).unwrap();
    let mut input: Vec<Complex<f32>> = frame
        .iter()
        .zip(&window)
        .map(|(s, w)| Complex::from(f32::from_bits(*s) * f32::from_bits(*w)))
        .collect();
    let mut output = vec![Complex::from(0.0f32); frame.len()];
    let fft = FFTplanner::new(false).plan_fft(analyzer.fft_buffer_len());
    fft.process(&mut input, &mut output);
    Ok(output.into_iter().map(|o| o.norm_sqr()).collect())
}

fn bucketize_spectrum(analyzer: &Analyzer, spectrum: &[f32], sampling_rate: f32) -> Vec<f32> {
    let bin_size = sampling_rate / analyzer.fft_buffer_len() as f32;
    let frequencies: Vec<u32> =
        (0..spectrum.len()).map(|i| (bin_size * i as f32).to_bits()).collect();
    analyzer
        .group_bins(&frequencies)
        .into_iter()
        .map(|group| {
            let mut sum = 0.0f32;
            for i in &group {
                sum += spectrum[*i];
            }
            if group.is_empty() { 0.0 } else { sum / group.len() as f32 }
        })
        .collect()
}

#[test]
fn test_calculate_spectrum() {
    const FFT_LEN: usize = 16;

    let analyzer =
        configure(FFT_LEN, NUM_BUCKETS, Window::Rectangle, 20.0, 10000.0, SAMPLE_RATE as f32)
            .unwrap();

    let samples = generate_samples(FFT_LEN);

    let spectrum: Vec<f32> = calculate_spectrum(&analyzer, &samples).unwrap();

    assert_eq!(FFT_LEN, spectrum.len());

    let expected: Vec<f32> = vec![
        3.0186355,
        0.31955782,
        0.07949541,
        0.03741721,
        0.023034703,
        0.016638935,
        0.013468596,
        0.011947523,
        0.011491794,
        0.011947523,
        0.013468596,
        0.016638935,
        0.023034703,
        0.03741721,
        0.07949541,
        0.31955782,
    ];

    for (e, ss) in expected.into_iter().zip(&spectrum) {
        assert!((e - ss).abs() < 1.0e-5, "{} is not close to {}", e, ss);
    }
}

#[test]
fn test_bucketize_spectrum() {
    const FFT_LEN: usize = 512;

    let analyzer =
        configure(FFT_LEN, NUM_BUCKETS, Window::Rectangle, 20.0, 10000.0, SAMPLE_RATE as f32)
            .unwrap();

    let samples = generate_samples(FFT_LEN);

    let spectrum: Vec<f32> = calculate_spectrum(&analyzer, &samples).unwrap();
    let bucketed_spectrum = bucketize_spectrum(&analyzer, &spectrum, SAMPLE_RATE as f32);

    assert_eq!(NUM_BUCKETS, bucketed_spectrum.len());

    for (bucket, b_ss) in analyzer.buckets().iter().zip(&bucketed_spectrum) {
        println!("[{}, {}): {}", f32::from_bits(bucket.0), f32::from_bits(bucket.1), b_ss);
        assert!(*b_ss >= 0.0);
    }
}

#[test]
fn silence_has_no_power() {
    let analyzer =
        configure(64, 8, Window::Rectangle, 20.0, 10000.0, SAMPLE_RATE as f32).unwrap();
    let spectrum = calculate_spectrum(&analyzer, &vec![0.0; 64]).unwrap();
    assert_eq!(spectrum, vec![0.0; 64]);
    let bucketed = bucketize_spectrum(&analyzer, &spectrum, SAMPLE_RATE as f32);
    assert_eq!(bucketed, vec![0.0; 8]);
}

#[test]
fn the_same_samples_give_the_same_spectrum() {
    let analyzer =
        configure(128, 8, Window::Rectangle, 20.0, 10000.0, SAMPLE_RATE as f32).unwrap();
    let samples = generate_samples(200);
    let first = calculate_spectrum(&analyzer, &samples).unwrap();
    let second = calculate_spectrum(&analyzer, &samples).unwrap();
    assert_eq!(bits(&first), bits(&second));
}

#[test]
fn a_cosine_on_a_bin_peaks_there() {
    let analyzer = configure(16, 4, Window::Rectangle, 1.0, 8.0, 16.0).unwrap();
    let samples: Vec<f32> =
        (0..16).map(|n| (2.0 * std::f32::consts::PI * 2.0 * n as f32 / 16.0).cos()).collect();
    let spectrum = calculate_spectrum(&analyzer, &samples).unwrap();
    for (k, p) in spectrum.iter().enumerate() {
        let want = if k == 2 || k == 14 { 64.0 } else { 0.0 };
        assert!((p - want).abs() < 1.0e-3, "bin {}: {}", k, p);
    }
}

#[test]
fn a_sampling_rate_that_is_not_positive_is_refused() {
    for rate in [0.0f32, -0.0, -44100.0, f32::NAN, f32::NEG_INFINITY] {
        let r = configure(16, 4, Window::Rectangle, 20.0, 10000.0, rate);
        assert_eq!(r.unwrap_err(), Error::InvalidSamplingRate);
    }
}

#[test]
fn the_sampling_rate_is_checked_before_the_range() {
    let r = configure(16, 0, Window::Rectangle, 500.0, 100.0, 0.0);
    assert_eq!(r.unwrap_err(), Error::InvalidSamplingRate);
}

#[test]
fn a_bad_range_is_refused() {
    let rate = SAMPLE_RATE as f32;
    assert_eq!(
        configure(16, 0, Window::Rectangle, 20.0, 10000.0, rate).unwrap_err(),
        Error::InvalidRange
    );
    assert_eq!(
        configure(16, 4, Window::Rectangle, 10000.0, 20.0, rate).unwrap_err(),
        Error::InvalidRange
    );
    assert_eq!(
        configure(16, 4, Window::Rectangle, -20.0, 10000.0, rate).unwrap_err(),
        Error::InvalidRange
    );
    assert_eq!(
        configure(16, 4, Window::Rectangle, 30000.0, 40000.0, rate).unwrap_err(),
        Error::InvalidRange
    );
}

#[test]
fn the_upper_cutoff_stops_at_half_the_sampling_rate() {
    let analyzer =
        configure(16, 4, Window::Hann, 20.0, 30000.0, SAMPLE_RATE as f32).unwrap();
    assert_eq!(analyzer.upper_cutoff(), Some(22050.0f32.to_bits()));
    assert_eq!(analyzer.lower_cutoff(), Some(20.0f32.to_bits()));
    let bands = analyzer.buckets();
    assert_eq!(bands.len(), 4);
    assert_eq!(bands[3].1, 22050.0f32.to_bits());
    assert_eq!(analyzer.locate(22049.0f32.to_bits()), Some(3));
    assert_eq!(analyzer.locate(22050.0f32.to_bits()), None);
}

#[test]
fn a_lower_upper_cutoff_is_kept() {
    let analyzer =
        configure(512, NUM_BUCKETS, Window::Hamming, 20.0, 10000.0, SAMPLE_RATE as f32).unwrap();
    assert_eq!(analyzer.upper_cutoff(), Some(10000.0f32.to_bits()));
    assert_eq!(analyzer.fft_buffer_len(), 512);
    assert_eq!(analyzer.buckets_len(), NUM_BUCKETS);
    assert_eq!(analyzer.window(), Window::Hamming);
    let twin = analyzer.clone();
    assert_eq!(twin.buckets(), analyzer.buckets());
    assert_eq!(twin.fft_buffer_len(), 512);
}

#[test]
fn too_few_samples_are_refused() {
    let analyzer = configure(8, 4, Window::Rectangle, 1.0, 4.0, 8.0).unwrap();
    let samples = bits(&[1.0, 2.0, 3.0, 4.0, 5.0, 6.0, 7.0]);
    assert_eq!(analyzer.latest_samples(&samples), Err(Error::NotEnoughSamples));
    assert_eq!(analyzer.latest_samples(&[]), Err(Error::NotEnoughSamples));
}

#[test]
fn the_frame_is_the_tail_of_the_samples() {
    let analyzer = configure(4, 2, Window::Rectangle, 1.0, 2.0, 4.0).unwrap();
    let samples = bits(&[1.0, 2.0, 3.0, 4.0, 5.0, 6.0]);
    assert_eq!(analyzer.latest_samples(&samples), Ok(bits(&[3.0, 4.0, 5.0, 6.0])));
    assert_eq!(analyzer.latest_samples(&samples[2..]), Ok(bits(&[3.0, 4.0, 5.0, 6.0])));
}

#[test]
fn bins_go_to_the_band_of_their_frequency() {
    // One Hertz per bin; bands [1, 3) and [3, 5).
    let analyzer = configure(16, 2, Window::Rectangle, 1.0, 5.0, 16.0).unwrap();
    let frequencies: Vec<u32> = (0..16).map(|i| (i as f32).to_bits()).collect();
    assert_eq!(analyzer.group_bins(&frequencies), vec![vec![1, 2], vec![3, 4]]);
    assert_eq!(analyzer.band_bins(&frequencies, 0), vec![1, 2]);
    assert_eq!(analyzer.band_bins(&frequencies, 1), vec![3, 4]);
    assert_eq!(analyzer.band_bins(&frequencies, 2), Vec::<usize>::new());
}

#[test]
fn the_mirrored_half_and_the_zero_bin_are_left_out() {
    // Bands [0, 4) and [4, 8) would take bins 0 and 5..8 too if they were looked at.
    let analyzer = configure(9, 2, Window::Rectangle, 0.0, 8.0, 16.0).unwrap();
    let frequencies: Vec<u32> = (0..9).map(|i| (i as f32).to_bits()).collect();
    assert_eq!(analyzer.group_bins(&frequencies), vec![vec![1, 2, 3], vec![4]]);
    assert_eq!(analyzer.group_bins(&frequencies[..1]), vec![vec![], vec![]]);
    assert_eq!(analyzer.group_bins(&[]), vec![Vec::<usize>::new(), Vec::new()]);
}

#[test]
fn a_band_without_bins_reports_zero() {
    // Four Hertz per bin, bands of one Hertz: only bins 1 and 2 hit a band.
    let analyzer = configure(8, 8, Window::Rectangle, 1.0, 9.0, 32.0).unwrap();
    let spectrum = vec![9.0f32, 2.0, 6.0, 1.0, 1.0, 1.0, 1.0, 1.0];
    let frequencies: Vec<u32> = (0..8).map(|i| (4.0 * i as f32).to_bits()).collect();
    let groups = analyzer.group_bins(&frequencies);
    assert_eq!(
        groups,
        vec![vec![], vec![], vec![], vec![1], vec![], vec![], vec![], vec![2]]
    );
    let bucketed = bucketize_spectrum(&analyzer, &spectrum, 32.0);
    assert_eq!(bucketed, vec![0.0, 0.0, 0.0, 2.0, 0.0, 0.0, 0.0, 6.0]);
}

#[test]
fn a_band_reports_the_mean_of_its_bins() {
    let analyzer = configure(16, 2, Window::Rectangle, 1.0, 5.0, 16.0).unwrap();
    let spectrum: Vec<f32> = (0..16).map(|i| (i * i) as f32).collect();
    let bucketed = bucketize_spectrum(&analyzer, &spectrum, 16.0);
    assert_eq!(bucketed, vec![2.5, 12.5]);
}

#[test]
fn the_rectangular_window_is_all_ones() {
    assert_eq!(Window::Rectangle.generate(5), Some(vec![ONE; 5]));
    assert_eq!(Window::Rectangle.generate(0), Some(Vec::new()));
    let ones: Vec<f32> =
        Window::Rectangle.generate(3).unwrap().into_iter().map(f32::from_bits).collect();
    assert_eq!(ones, vec![1.0, 1.0, 1.0]);
}

#[test]
fn tapering_windows_are_left_to_the_caller() {
    assert_eq!(Window::Hann.generate(5), None);
    assert_eq!(Window::Hamming.generate(5), None);
}

#[test]
fn each_bin_knows_its_band() {
    let analyzer = configure(16, 2, Window::Rectangle, 1.0, 5.0, 16.0).unwrap();
    let frequencies: Vec<u32> = (0..16).map(|i| (i as f32).to_bits()).collect();
    let mut want: Vec<Option<usize>> = vec![None; 16];
    want[1] = Some(0);
    want[2] = Some(0);
    want[3] = Some(1);
    want[4] = Some(1);
    assert_eq!(analyzer.bin_bands(&frequencies), want);
    // Bin 9 would lie in band 0 by its frequency, but belongs to the mirrored half.
    let mut folded = frequencies.clone();
    folded[9] = 1.5f32.to_bits();
    assert_eq!(analyzer.bin_bands(&folded), want);
}

#[test]
fn the_clamp_is_the_smaller_of_cutoff_and_half_rate() {
    for (upper, rate) in [(10000.0f32, 44100.0f32), (30000.0, 44100.0), (22050.0, 44100.0), (1.0, 8.0), (5.0, 8.0)] {
        let got = Analyzer::clamp_upper_cutoff(upper.to_bits(), rate.to_bits());
        assert_eq!(got, upper.min(rate / 2.0).to_bits());
    }
    assert_eq!(Analyzer::clamp_upper_cutoff(30000.0f32.to_bits(), 44100.0f32.to_bits()), 22050.0f32.to_bits());
    assert_eq!(Analyzer::clamp_upper_cutoff(f32::NAN.to_bits(), 44100.0f32.to_bits()), 22050.0f32.to_bits());
}
