use geodist::Distance;
use geodist::Engine;
use geodist::GeoCoordinate;
use geodist::Side;
use geodist::Step;

// The ellipsoidal solver, as the application runs it: Vincenty's inverse
// iteration on the WGS-84 ellipsoid, in kilometres rounded to six digits.
fn vincenty_km(c1: &GeoCoordinate, c2: &GeoCoordinate) -> Option<f64> {
    let flattening: f64 = 1.0 / 298.257_223_563;
    let radius_equator: f64 = 6_378_137.0;
    let radius_poles: f64 = (1.0 - flattening) * radius_equator;
    let lat1 = c1.lat_nano as f64 / 1e9;
    let lng1 = c1.lng_nano as f64 / 1e9;
    let lat2 = c2.lat_nano as f64 / 1e9;
    let lng2 = c2.lng_nano as f64 / 1e9;
    let u1 = f64::atan((1.0 - flattening) * f64::tan(lat1.to_radians()));
    let u2 = f64::atan((1.0 - flattening) * f64::tan(lat2.to_radians()));
    let init_lambda = (lng2 - lng1).to_radians();
    let mut lambda = init_lambda;
    let (sin_u1, cos_u1) = (u1.sin(), u1.cos());
    let (sin_u2, cos_u2) = (u2.sin(), u2.cos());
    for _ in 0..200 {
        let (sin_lambda, cos_lambda) = (lambda.sin(), lambda.cos());
        let sin_sigma = f64::sqrt(
            (cos_u2 * sin_lambda).powi(2)
                + (cos_u1 * sin_u2 - sin_u1 * cos_u2 * cos_lambda).powi(2),
        );
        if sin_sigma == 0.0 {
            return Some(0.0);
        }
        let cos_sigma = sin_u1.mul_add(sin_u2, cos_u1 * cos_u2 * cos_lambda);
        let sigma = f64::atan2(sin_sigma, cos_sigma);
        let sin_alpha = cos_u1 * cos_u2 * sin_lambda / sin_sigma;
        let cos_sqalpha = 1.0 - sin_alpha.powi(2);
        let cos2_sigma_m = if cos_sqalpha == 0.0 {
            0.0
        } else {
            cos_sigma - 2.0 * sin_u1 * sin_u2 / cos_sqalpha
        };
        let c = (flattening / 16.0) * cos_sqalpha * (4.0 + flattening - 3.0 * cos_sqalpha);
        let new_lambda = ((1.0 - c) * flattening * sin_alpha).mul_add(
            (c * sin_sigma).mul_add(
                (c * cos_sigma).mul_add(
                    2.0_f64.mul_add(cos2_sigma_m.powi(2), -1.0),
                    cos2_sigma_m,
                ),
                sigma,
            ),
            init_lambda,
        );
        if (new_lambda - lambda).abs() < 0.000_000_000_001 {
            let usq = cos_sqalpha * (radius_equator.powi(2) - radius_poles.powi(2))
                / radius_poles.powi(2);
            let a = (usq / 16384.0)
                .mul_add(usq.mul_add(usq.mul_add(320.0 - 175.0 * usq, -768.0), 4096.0), 1.0);
            let b = (usq / 1024.0) * usq.mul_add(usq.mul_add(74.0 - 47.0 * usq, -128.0), 256.0);
            let delta_sigma = b
                * sin_sigma
                * (b / 4.0).mul_add(
                    cos_sigma * 2.0_f64.mul_add(cos2_sigma_m.powi(2), -1.0)
                        - (b / 6.0)
                            * cos2_sigma_m
                            * (4.0_f64.mul_add(sin_sigma.powi(2), -3.0))
                            * (4.0_f64.mul_add(cos2_sigma_m.powi(2), -3.0)),
                    cos2_sigma_m,
                );
            let km = radius_poles * a * (sigma - delta_sigma) / 1000.0;
            let p = 10.0_f64.powi(6);
            return Some((km * p).round() / p);
        }
        lambda = new_lambda;
    }
    None
}

fn solve_micro(c1: &GeoCoordinate, c2: &GeoCoordinate) -> Option<Distance> {
    let km = vincenty_km(c1, c2)?;
    if !km.is_finite() || km < 0.0 {
        return None;
    }
    Some(Distance::from_micro((km * 1e6).round() as u64))
}

#[test]
fn identity() {
    let c = GeoCoordinate::new(0, 0);
    assert_eq!(vincenty_km(&c, &c).unwrap(), 0.0);
}

#[test]
fn basic() {
    let c1 = GeoCoordinate::new(42_354_116_500, -71_069_351_400);
    let c2 = GeoCoordinate::new(40_779_147_200, -73_968_080_400);
    assert_eq!(vincenty_km(&c1, &c2).unwrap(), 298.396186);
}

#[test]
fn known() {
    let c1 = GeoCoordinate::new(39_152_501_000, -84_412_977_000);
    let c2 = GeoCoordinate::new(39_152_505_000, -84_412_946_000);
    assert_eq!(vincenty_km(&c1, &c2).unwrap(), 0.002716);
}

#[test]
fn h3() {
    let c1 = GeoCoordinate::from_text("8826085a4dfffff").unwrap();
    let c2 = GeoCoordinate::from_text("8826085a4dfffff").unwrap();
    assert_eq!(0.0, vincenty_km(&c1, &c2).unwrap());
}

#[test]
fn near_antipodal_fails_to_converge() {
    let c1 = GeoCoordinate::from_text("0.0, 0.0").unwrap();
    let c2 = GeoCoordinate::from_text("0.5, 179.7").unwrap();
    assert!(vincenty_km(&c1, &c2).is_none());
    let mut engine = Engine::new(1024);
    match engine.prepare("0.0, 0.0", "0.5, 179.7").unwrap() {
        Step::Done(_) => panic!("nothing was cached yet"),
        Step::Solve { source, destination } => {
            let solved = solve_micro(&source, &destination);
            let r = engine.complete("0.0, 0.0", "0.5, 179.7", source, destination, solved);
            assert!(matches!(r, Err(geodist::CoreError::ConvergenceFailure)));
        },
    }
}

#[test]
fn malformed_query_is_reported() {
    let mut engine = Engine::new(1024);
    match engine.prepare("abc", "0,0") {
        Err(geodist::CoreError::MalformedCoordinate { input, side }) => {
            assert_eq!(input, "abc");
            assert_eq!(side, Side::Source);
        },
        _ => panic!("a text without a comma is not a coordinate"),
    }
    match engine.prepare("0,0", "1,") {
        Err(geodist::CoreError::MalformedCoordinate { input, side }) => {
            assert_eq!(input, "1,");
            assert_eq!(side, Side::Destination);
        },
        _ => panic!("an empty longitude is not a coordinate"),
    }
}

#[test]
fn repeated_query_is_answered_from_cache() {
    let src = "42.3541165, -71.0693514";
    let dst = "40.7791472, -73.9680804";
    let mut engine = Engine::new(1024);
    let mut solver_calls: usize = 0;
    let mut answers = Vec::new();
    for _ in 0..2 {
        let step = engine.prepare(src, dst).unwrap();
        let answer = match step {
            Step::Done(a) => a,
            Step::Solve { source, destination } => {
                solver_calls += 1;
                let solved = solve_micro(&source, &destination);
                engine.complete(src, dst, source, destination, solved).unwrap()
            },
        };
        answers.push(answer);
    }
    assert_eq!(solver_calls, 1);
    assert_eq!(answers[0], answers[1]);
    assert_eq!(answers[0].distance, Distance::from_micro(298_396_186));
}
